use vstd::prelude::*;
use crate::asr::strings_view;

verus! {

/// The prefix that opens each event of the model's streamed response.
pub open spec fn data_tag() -> Seq<char> {
    seq!['d', 'a', 't', 'a', ':', ' ']
}

/// The end-of-stream marker.
pub open spec fn done_tag() -> Seq<char> {
    seq!['[', 'D', 'O', 'N', 'E', ']']
}

pub open spec fn tag_at(s: Seq<char>, tag: Seq<char>, i: int) -> bool {
    0 <= i && i + tag.len() <= s.len() && s.subrange(i, i + tag.len()) == tag
}

/// The first position at or after `i` where `data_tag` starts, or `s.len()`.
pub open spec fn tag_from(s: Seq<char>, i: int) -> int
    decreases s.len() - i,
{
    if i + 6 > s.len() {
        s.len() as int
    } else if tag_at(s, data_tag(), i) {
        i
    } else {
        tag_from(s, i + 1)
    }
}

/// The pieces of `s` from `start` between occurrences of `data_tag`, as
/// `str::split` gives them: the first one before the first tag, and the
/// last one after the last tag, either of which may be empty.
pub open spec fn pieces_from(s: Seq<char>, start: int) -> Seq<Seq<char>>
    decreases s.len() + 1 - start,
{
    let k = tag_from(s, start);
    if start < 0 || start > s.len() || k < start || k + 6 > s.len() {
        seq![s.subrange(start, s.len() as int)]
    } else {
        seq![s.subrange(start, k)] + pieces_from(s, k + 6)
    }
}

/// A piece is an event payload unless it is empty or the end marker.
pub open spec fn is_payload(p: Seq<char>) -> bool {
    p.len() > 0 && !tag_at(p, done_tag(), 0)
}

pub open spec fn payloads(ps: Seq<Seq<char>>) -> Seq<Seq<char>>
    decreases ps.len(),
{
    if ps.len() == 0 {
        Seq::empty()
    } else if is_payload(ps[0]) {
        seq![ps[0]] + payloads(ps.drop_first())
    } else {
        payloads(ps.drop_first())
    }
}

proof fn lemma_tag_from_bounds(s: Seq<char>, i: int)
    requires
        0 <= i,
    ensures
        tag_from(s, i) + 6 <= s.len() ==> i <= tag_from(s, i) && tag_at(s, data_tag(), tag_from(s, i)),
        tag_from(s, i) + 6 > s.len() ==> tag_from(s, i) == s.len(),
    decreases s.len() - i,
{
    if i + 6 <= s.len() && !tag_at(s, data_tag(), i) {
        lemma_tag_from_bounds(s, i + 1);
    }
}

/// Whether `tag` starts at `i` in `s`.
fn has_tag_at(s: &str, n: usize, tag: &str, i: usize) -> (r: bool)
    requires
        n == s@.len(),
        tag@.len() == 6,
    ensures
        r == tag_at(s@, tag@, i as int),
{
    if i > n || n - i < 6 {
        return false;
    }
    let mut j: usize = 0;
    while j < 6
        invariant
            n == s@.len(),
            tag@.len() == 6,
            i + 6 <= n,
            j <= 6,
            forall|m: int| 0 <= m < j ==> s@[i + m] == tag@[m],
        decreases 6 - j,
    {
        if s.get_char(i + j) != tag.get_char(j) {
            proof {
                assert(s@.subrange(i as int, i + 6)[j as int] != tag@[j as int]);
            }
            return false;
        }
        j = j + 1;
    }
    assert(s@.subrange(i as int, i + 6) =~= tag@);
    true
}

/// The payloads of the events in one received block of the streamed
/// response: the pieces between `data: ` tags, without the empty ones and
/// those that start with the end marker, in order.
pub fn sse_payloads(body: &str) -> (r: Vec<String>)
    ensures
        strings_view(r@) == payloads(pieces_from(body@, 0)),
{
    proof {
        reveal_strlit("data: ");
        reveal_strlit("[DONE]");
    }
    let data = "data: ";
    let done = "[DONE]";
    assert(data@ == data_tag());
    assert(done@ == done_tag());
    let n = body.unicode_len();
    let mut out: Vec<String> = Vec::new();
    let mut start: usize = 0;
    let mut i: usize = 0;
    let mut finished = false;
    while !finished
        invariant
            n == body@.len(),
            data@ == data_tag(),
            done@ == done_tag(),
            start <= i <= n,
            !finished ==> tag_from(body@, start as int) == tag_from(body@, i as int),
            !finished ==> payloads(pieces_from(body@, 0)) == strings_view(out@) + payloads(
                pieces_from(body@, start as int),
            ),
            finished ==> payloads(pieces_from(body@, 0)) == strings_view(out@),
        decreases n - i + (if finished { 0int } else { 1int }),
    {
        let at_end = n - i < 6;
        let found = !at_end && has_tag_at(body, n, data, i);
        if at_end || found {
            let k = if found { i } else { n };
            proof {
                lemma_tag_from_bounds(body@, start as int);
                if at_end {
                    assert(tag_from(body@, i as int) == n);
                }
                assert(k == tag_from(body@, start as int));
            }
            let piece = body.substring_char(start, k);
            let ghost ps = pieces_from(body@, start as int);
            let ghost before = strings_view(out@);
            let keep = piece.unicode_len() > 0 && !(piece.unicode_len() >= 6 && has_tag_at(
                piece,
                piece.unicode_len(),
                done,
                0,
            ));
            if keep {
                out.push(String::from_str(piece));
                proof {
                    assert(strings_view(out@) =~= before + seq![piece@]);
                }
            }
            proof {
                assert(ps[0] == piece@);
                if found {
                    assert(ps.drop_first() =~= pieces_from(body@, k + 6));
                } else {
                    assert(ps =~= seq![piece@]);
                    assert(ps.drop_first() =~= Seq::<Seq<char>>::empty());
                }
                if keep {
                    assert(before + (seq![piece@] + payloads(ps.drop_first())) =~= strings_view(
                        out@,
                    ) + payloads(ps.drop_first()));
                }
            }
            if found {
                start = k + 6;
                i = k + 6;
            } else {
                finished = true;
                i = n;
                proof {
                    assert(payloads(Seq::<Seq<char>>::empty()) == Seq::<Seq<char>>::empty());
                    assert(strings_view(out@) + Seq::<Seq<char>>::empty() =~= strings_view(out@));
                }
            }
        } else {
            i = i + 1;
        }
    }
    out
}

} // verus!

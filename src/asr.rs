use vstd::prelude::*;

verus! {

/// The first position at or after `i` where `s` holds `c`, or `s.len()`.
pub open spec fn find_from(s: Seq<char>, c: char, i: int) -> int
    decreases s.len() - i,
{
    if i >= s.len() {
        s.len() as int
    } else if s[i] == c {
        i
    } else {
        find_from(s, c, i + 1)
    }
}

/// A line without the carriage return of a `\r\n` ending.
pub open spec fn strip_cr(l: Seq<char>) -> Seq<char> {
    if l.len() > 0 && l.last() == '\r' {
        l.drop_last()
    } else {
        l
    }
}

/// The lines of `s` from position `start`, as `str::lines` gives them: split
/// after each `\n`, the `\n` (and a `\r` before it) removed, and no empty
/// line after a final `\n`.
pub open spec fn lines_from(s: Seq<char>, start: int) -> Seq<Seq<char>>
    decreases s.len() - start,
{
    if start >= s.len() || start < 0 {
        Seq::empty()
    } else {
        let e = find_from(s, '\n', start);
        if e >= s.len() || e < start {
            seq![s.subrange(start, s.len() as int)]
        } else {
            seq![strip_cr(s.subrange(start, e))] + lines_from(s, e + 1)
        }
    }
}

/// The first position at or after `i` where `l` holds `"] "`, or `l.len()`.
pub open spec fn marker_from(l: Seq<char>, i: int) -> int
    decreases l.len() - i,
{
    if i + 1 >= l.len() {
        l.len() as int
    } else if l[i] == ']' && l[i + 1] == ' ' {
        i
    } else {
        marker_from(l, i + 1)
    }
}

/// What follows the first `"] "` of a line, if it has one.
pub open spec fn after_marker(l: Seq<char>) -> Option<Seq<char>> {
    let k = marker_from(l, 0);
    if k + 1 < l.len() {
        Some(l.subrange(k + 2, l.len() as int))
    } else {
        None
    }
}

/// The texts of the lines that carry a `"] "` marker, in order.
pub open spec fn marked_texts(ls: Seq<Seq<char>>) -> Seq<Seq<char>>
    decreases ls.len(),
{
    if ls.len() == 0 {
        Seq::empty()
    } else {
        match after_marker(ls[0]) {
            Some(t) => seq![t] + marked_texts(ls.drop_first()),
            None => marked_texts(ls.drop_first()),
        }
    }
}

pub open spec fn strings_view(v: Seq<String>) -> Seq<Seq<char>> {
    v.map_values(|x: String| x@)
}

proof fn lemma_find_from_bounds(s: Seq<char>, c: char, i: int)
    requires
        0 <= i <= s.len(),
    ensures
        i <= find_from(s, c, i) <= s.len(),
        find_from(s, c, i) < s.len() ==> s[find_from(s, c, i)] == c,
    decreases s.len() - i,
{
    if i < s.len() && s[i] != c {
        lemma_find_from_bounds(s, c, i + 1);
    }
}

proof fn lemma_marker_from_bounds(l: Seq<char>, i: int)
    requires
        0 <= i,
    ensures
        marker_from(l, i) + 1 < l.len() ==> i <= marker_from(l, i),
    decreases l.len() - i,
{
    if i + 1 < l.len() && !(l[i] == ']' && l[i + 1] == ' ') {
        lemma_marker_from_bounds(l, i + 1);
    }
}

/// Where `c` first stands in `s` at or after `from`, below `n == s@.len()`.
fn find_char(s: &str, n: usize, c: char, from: usize) -> (r: usize)
    requires
        n == s@.len(),
        from <= n,
    ensures
        r == find_from(s@, c, from as int),
{
    let mut i = from;
    while i < n
        invariant
            n == s@.len(),
            from <= i <= n,
            find_from(s@, c, from as int) == find_from(s@, c, i as int),
        decreases n - i,
    {
        if s.get_char(i) == c {
            return i;
        }
        i = i + 1;
    }
    i
}

/// Where `"] "` first stands in the line `s@[start..end]`, counted from
/// `start`, or `end - start`.
fn find_marker(s: &str, start: usize, end: usize) -> (r: usize)
    requires
        start <= end <= s@.len(),
    ensures
        r == marker_from(s@.subrange(start as int, end as int), 0),
{
    let ghost l = s@.subrange(start as int, end as int);
    let len = end - start;
    let mut i: usize = 0;
    while len > 0 && i < len - 1
        invariant
            len == l.len(),
            start + len == end,
            end <= s@.len(),
            l == s@.subrange(start as int, end as int),
            marker_from(l, 0) == marker_from(l, i as int),
        decreases len - i,
    {
        if s.get_char(start + i) == ']' && s.get_char(start + i + 1) == ' ' {
            return i;
        }
        i = i + 1;
    }
    len
}

/// A transcription result: one segment per line, each `[...] text`.
pub struct AsrResult {
    pub text: String,
}

impl AsrResult {
    /// The text after the first `"] "` of every line that has one.
    pub fn parse_text(self) -> (r: Vec<String>)
        ensures
            strings_view(r@) == marked_texts(lines_from(self.text@, 0)),
    {
        let s = self.text.as_str();
        let n = s.unicode_len();
        let mut texts: Vec<String> = Vec::new();
        let mut start: usize = 0;
        while start < n
            invariant
                n == s@.len(),
                s@ == self.text@,
                start <= n,
                marked_texts(lines_from(s@, 0)) == strings_view(texts@) + marked_texts(
                    lines_from(s@, start as int),
                ),
            decreases n - start,
        {
            let e = find_char(s, n, '\n', start);
            proof {
                lemma_find_from_bounds(s@, '\n', start as int);
            }
            let ghost ls = lines_from(s@, start as int);
            let mut end = e;
            if e < n && e > start && s.get_char(e - 1) == '\r' {
                end = e - 1;
            }
            let ghost line = s@.subrange(start as int, end as int);
            proof {
                if e < n {
                    assert(line =~= strip_cr(s@.subrange(start as int, e as int)));
                    assert(ls.drop_first() =~= lines_from(s@, e + 1));
                } else {
                    assert(line =~= s@.subrange(start as int, n as int));
                    assert(ls.drop_first() =~= lines_from(s@, n as int));
                }
                assert(ls[0] == line);
            }
            let k = find_marker(s, start, end);
            proof {
                lemma_marker_from_bounds(line, 0);
            }
            let ghost before = strings_view(texts@);
            if k < end - start && end - start - k >= 2 {
                let t = s.substring_char(start + k + 2, end);
                texts.push(String::from_str(t));
                proof {
                    assert(t@ =~= line.subrange(k + 2, line.len() as int));
                    assert(strings_view(texts@) =~= before + seq![t@]);
                }
            }
            proof {
                let rest = marked_texts(ls.drop_first());
                assert(marked_texts(ls) == match after_marker(ls[0]) {
                    Some(t) => seq![t] + rest,
                    None => rest,
                });
                if k < end - start && end - start - k >= 2 {
                    assert(before + (seq![after_marker(line)->0] + rest) =~= strings_view(texts@) + rest);
                }
            }
            start = if e < n { e + 1 } else { n };
        }
        proof {
            assert(lines_from(s@, start as int) =~= Seq::<Seq<char>>::empty());
            assert(marked_texts(Seq::<Seq<char>>::empty()) =~= Seq::<Seq<char>>::empty());
            assert(strings_view(texts@) + Seq::<Seq<char>>::empty() =~= strings_view(texts@));
        }
        texts
    }
}

} // verus!

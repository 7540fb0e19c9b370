use vstd::prelude::*;

verus! {

/// The characters that `str::split_ascii_whitespace` separates words at:
/// space, horizontal tab, line feed, form feed and carriage return.
pub open spec fn is_ascii_whitespace(c: char) -> bool {
    c == ' ' || c == '\t' || c == '\n' || c == '\x0C' || c == '\r'
}

/// `t` stands somewhere in `s` as a contiguous run of characters.
pub open spec fn occurs_in(t: Seq<char>, s: Seq<char>) -> bool {
    exists|i: int| 0 <= i && i + t.len() <= s.len() && #[trigger] s.subrange(i, i + t.len()) == t
}

/// `t` is how `s` ends.
pub open spec fn ends_with(s: Seq<char>, t: Seq<char>) -> bool {
    t.len() <= s.len() && s.subrange(s.len() - t.len(), s.len() as int) == t
}

/// The text of each string in a sequence.
pub open spec fn views(v: Seq<String>) -> Seq<Seq<char>> {
    v.map_values(|w: String| w@)
}

/// The words of `s`: its maximal runs of characters that are not ASCII
/// whitespace, in order. Read left to right, a non-whitespace character
/// either continues the word that the previous character belongs to or
/// starts a new one.
pub open spec fn words(s: Seq<char>) -> Seq<Seq<char>>
    decreases s.len(),
{
    if s.len() == 0 {
        Seq::empty()
    } else {
        let prev = words(s.drop_last());
        let c = s.last();
        if is_ascii_whitespace(c) {
            prev
        } else if s.len() >= 2 && !is_ascii_whitespace(s[s.len() - 2]) {
            prev.update(prev.len() - 1, prev.last().push(c))
        } else {
            prev.push(seq![c])
        }
    }
}

/// The parts of `parts` with `sep` between each two neighbours.
pub open spec fn joined(parts: Seq<Seq<char>>, sep: Seq<char>) -> Seq<char>
    decreases parts.len(),
{
    if parts.len() == 0 {
        Seq::empty()
    } else if parts.len() == 1 {
        parts[0]
    } else {
        joined(parts.drop_last(), sep) + sep + parts.last()
    }
}

/// The pieces of `s` between line feeds; there is always one more piece
/// than there are line feeds.
pub open spec fn segments(s: Seq<char>) -> Seq<Seq<char>>
    decreases s.len(),
{
    if s.len() == 0 {
        seq![Seq::empty()]
    } else {
        let prev = segments(s.drop_last());
        let c = s.last();
        if c == '\n' {
            prev.push(Seq::empty())
        } else {
            prev.update(prev.len() - 1, prev.last().push(c))
        }
    }
}

/// A piece that ended in a line feed loses one carriage return before it.
pub open spec fn strip_cr(t: Seq<char>) -> Seq<char> {
    if t.len() > 0 && t.last() == '\r' {
        t.drop_last()
    } else {
        t
    }
}

/// The lines of `s` as `str::lines` gives them: every piece that a line
/// feed ends, without a carriage return before that line feed, then the
/// text after the last line feed if there is any.
pub open spec fn lines(s: Seq<char>) -> Seq<Seq<char>> {
    let segs = segments(s);
    let ended = segs.drop_last().map_values(|t: Seq<char>| strip_cr(t));
    if segs.last().len() == 0 {
        ended
    } else {
        ended.push(segs.last())
    }
}

/// What stands in a prefix of `s` stands in `s`.
pub proof fn lemma_occurs_in_longer(w: Seq<char>, t: Seq<char>, s: Seq<char>)
    requires
        occurs_in(w, t),
        t.len() <= s.len(),
        s.take(t.len() as int) == t,
    ensures
        occurs_in(w, s),
{
    let i = choose|i: int| 0 <= i && i + w.len() <= t.len() && #[trigger] t.subrange(i, i + w.len()) == w;
    assert(s.subrange(i, i + w.len()) =~= t.subrange(i, i + w.len()));
}

/// What stands in something that stands in `s` stands in `s`.
pub proof fn lemma_occurs_in_trans(a: Seq<char>, b: Seq<char>, c: Seq<char>)
    requires
        occurs_in(a, b),
        occurs_in(b, c),
    ensures
        occurs_in(a, c),
{
    let i = choose|i: int| 0 <= i && i + a.len() <= b.len() && #[trigger] b.subrange(i, i + a.len()) == a;
    let j = choose|j: int| 0 <= j && j + b.len() <= c.len() && #[trigger] c.subrange(j, j + b.len()) == b;
    assert(c.subrange(j + i, j + i + a.len()) =~= b.subrange(i, i + a.len()));
}

/// The words of `s` are nonempty, hold no ASCII whitespace and stand in
/// `s`; when `s` ends inside a word, its last word is how `s` ends.
pub proof fn lemma_words_shape(s: Seq<char>)
    ensures
        forall|k: int|
            0 <= k < words(s).len() ==> {
                &&& (#[trigger] words(s)[k]).len() > 0
                &&& forall|j: int|
                    0 <= j < words(s)[k].len() ==> !is_ascii_whitespace(words(s)[k][j])
                &&& occurs_in(words(s)[k], s)
            },
        s.len() > 0 && !is_ascii_whitespace(s.last()) ==> words(s).len() > 0 && ends_with(
            s,
            words(s).last(),
        ),
    decreases s.len(),
{
    if s.len() > 0 {
        let t = s.drop_last();
        let c = s.last();
        let w = words(t);
        lemma_words_shape(t);
        assert(s.take(t.len() as int) =~= t);
        assert forall|k: int| 0 <= k < w.len() implies occurs_in(#[trigger] w[k], s) by {
            lemma_occurs_in_longer(w[k], t, s);
        }
        if is_ascii_whitespace(c) {
        } else if s.len() >= 2 && !is_ascii_whitespace(s[s.len() - 2]) {
            assert(t.last() == s[s.len() - 2]);
            let last = w.last().push(c);
            assert(words(s) == w.update(w.len() - 1, last));
            assert(s.subrange(s.len() - last.len(), s.len() as int) =~= t.subrange(
                t.len() - w.last().len(),
                t.len() as int,
            ).push(c));
            assert(s.subrange(s.len() - last.len(), s.len() - last.len() + last.len()) == last);
            assert(words(s)[words(s).len() - 1] == last);
        } else {
            let last = seq![c];
            assert(words(s) == w.push(last));
            assert(s.subrange(s.len() - 1, s.len() as int) =~= last);
            assert(s.subrange(s.len() - 1, s.len() - 1 + last.len()) == last);
            assert(words(s)[words(s).len() - 1] == last);
        }
    }
}

/// No piece between line feeds holds a line feed.
proof fn lemma_segments_hold_no_line_feed(s: Seq<char>)
    ensures
        segments(s).len() >= 1,
        forall|k: int, j: int|
            0 <= k < segments(s).len() && 0 <= j < segments(s)[k].len() ==> #[trigger] segments(
                s,
            )[k][j] != '\n',
    decreases s.len(),
{
    if s.len() > 0 {
        lemma_segments_hold_no_line_feed(s.drop_last());
    }
}

/// No line holds a line feed.
pub proof fn lemma_lines_hold_no_line_feed(s: Seq<char>)
    ensures
        forall|k: int, j: int|
            0 <= k < lines(s).len() && 0 <= j < lines(s)[k].len() ==> #[trigger] lines(s)[k][j]
                != '\n',
{
    lemma_segments_hold_no_line_feed(s);
    let segs = segments(s);
    assert forall|k: int, j: int|
        0 <= k < lines(s).len() && 0 <= j < lines(s)[k].len() implies #[trigger] lines(s)[k][j]
        != '\n' by {
        if k < segs.len() - 1 {
            assert(lines(s)[k] == strip_cr(segs[k]));
            assert(lines(s)[k][j] == segs[k][j]);
        } else {
            assert(lines(s)[k] == segs[k]);
        }
    }
}

/// Compares two string slices character by character.
pub fn str_eq(a: &str, b: &str) -> (r: bool)
    ensures
        r == (a@ == b@),
{
    let n = a.unicode_len();
    if n != b.unicode_len() {
        return false;
    }
    let mut i: usize = 0;
    while i < n
        invariant
            n == a@.len(),
            n == b@.len(),
            i <= n,
            forall|j: int| 0 <= j < i ==> a@[j] == b@[j],
        decreases n - i,
    {
        if a.get_char(i) != b.get_char(i) {
            return false;
        }
        i = i + 1;
    }
    assert(a@ =~= b@);
    true
}

/// Splits `s` into its words, as `str::split_ascii_whitespace` does.
pub fn split_words(s: &str) -> (r: Vec<String>)
    ensures
        views(r@) == words(s@),
{
    let n = s.unicode_len();
    let mut out: Vec<String> = Vec::new();
    let mut start: usize = 0;
    let mut in_word = false;
    let mut i: usize = 0;
    for c in it: s.chars()
        invariant
            it.seq() == s@,
            n == s@.len(),
            i == it.index(),
            i <= n,
            start <= i,
            in_word ==> start < i,
            in_word ==> !is_ascii_whitespace(s@[i - 1]),
            in_word ==> views(out@).push(s@.subrange(start as int, i as int)) == words(
                s@.take(i as int),
            ),
            !in_word ==> i == 0 || is_ascii_whitespace(s@[i - 1]),
            !in_word ==> views(out@) == words(s@.take(i as int)),
    {
        assert(c == s@[i as int]);
        let ghost before = views(out@);
        assert(s@.take(i + 1).drop_last() =~= s@.take(i as int));
        if is_whitespace_char(c) {
            if in_word {
                let w = String::from_str(s.substring_char(start, i));
                out.push(w);
                assert(views(out@) =~= before.push(w@));
                in_word = false;
            }
        } else {
            if in_word {
                assert(s@.subrange(start as int, i + 1) =~= s@.subrange(start as int, i as int).push(c));
                assert(s@.take(i + 1)[i - 1] == s@[i - 1]);
                assert(before.push(s@.subrange(start as int, i + 1)) =~= before.push(
                    s@.subrange(start as int, i as int),
                ).update(before.len() as int, s@.subrange(start as int, i as int).push(c)));
            } else {
                start = i;
                in_word = true;
                assert(s@.subrange(start as int, i + 1) =~= seq![c]);
                if i > 0 {
                    assert(s@.take(i + 1)[i - 1] == s@[i - 1]);
                }
            }
        }
        i = i + 1;
    }
    assert(s@.take(n as int) =~= s@);
    if in_word {
        let w = String::from_str(s.substring_char(start, n));
        let ghost before = views(out@);
        out.push(w);
        assert(views(out@) =~= before.push(w@));
    }
    out
}

/// Whether `c` is one of the ASCII whitespace characters.
fn is_whitespace_char(c: char) -> (r: bool)
    ensures
        r == is_ascii_whitespace(c),
{
    c == ' ' || c == '\t' || c == '\n' || c == '\x0C' || c == '\r'
}

/// Concatenates `parts` with `sep` between each two neighbours.
pub fn join(parts: &[String], sep: &str) -> (r: String)
    ensures
        r@ == joined(views(parts@), sep@),
{
    let mut res = String::new();
    let ghost all = views(parts@);
    let n = parts.len();
    for i in 0..n
        invariant
            n == parts@.len(),
            all == views(parts@),
            res@ == joined(all.take(i as int), sep@),
    {
        assert(all.take(i + 1).drop_last() =~= all.take(i as int));
        if i == 0 {
            res.append(parts[i].as_str());
            assert(res@ =~= joined(all.take(1), sep@));
        } else {
            res.append(sep);
            res.append(parts[i].as_str());
        }
    }
    assert(all.take(n as int) =~= all);
    res
}

/// Splits `s` into lines, as `str::lines` does.
pub fn split_lines(s: &str) -> (r: Vec<String>)
    ensures
        views(r@) == lines(s@),
{
    let n = s.unicode_len();
    let mut out: Vec<String> = Vec::new();
    let mut start: usize = 0;
    let mut i: usize = 0;
    for c in it: s.chars()
        invariant
            it.seq() == s@,
            n == s@.len(),
            i == it.index(),
            i <= n,
            start <= i,
            segments(s@.take(i as int)).len() >= 1,
            views(out@) == segments(s@.take(i as int)).drop_last().map_values(
                |t: Seq<char>| strip_cr(t),
            ),
            segments(s@.take(i as int)).last() == s@.subrange(start as int, i as int),
    {
        assert(c == s@[i as int]);
        let ghost before = views(out@);
        let ghost prev = segments(s@.take(i as int));
        assert(s@.take(i + 1).drop_last() =~= s@.take(i as int));
        if c == '\n' {
            let mut end = i;
            if i > start && s.get_char(i - 1) == '\r' {
                end = i - 1;
            }
            let line = String::from_str(s.substring_char(start, end));
            out.push(line);
            assert(line@ =~= strip_cr(s@.subrange(start as int, i as int)));
            assert(views(out@) =~= before.push(line@));
            assert(segments(s@.take(i + 1)) == prev.push(Seq::empty()));
            assert(segments(s@.take(i + 1)).drop_last() =~= prev);
            assert(views(out@) =~= prev.map_values(|t: Seq<char>| strip_cr(t)));
            start = i + 1;
            assert(s@.subrange(start as int, i + 1) =~= Seq::<char>::empty());
        } else {
            let ghost next = prev.update(prev.len() - 1, prev.last().push(c));
            assert(segments(s@.take(i + 1)) == next);
            assert(next.drop_last() =~= prev.drop_last());
            assert(s@.subrange(start as int, i + 1) =~= s@.subrange(start as int, i as int).push(
                c,
            ));
        }
        i = i + 1;
    }
    assert(s@.take(n as int) =~= s@);
    if start < n {
        let rest = String::from_str(s.substring_char(start, n));
        let ghost before = views(out@);
        out.push(rest);
        assert(views(out@) =~= before.push(rest@));
    }
    out
}

} // verus!

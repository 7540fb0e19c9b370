use vstd::prelude::*;

verus! {

/// A character of the ASCII range.
pub open spec fn is_ascii_char(c: char) -> bool {
    c <= '\x7f'
}

/// A text made of ASCII characters only.
pub open spec fn is_ascii_text(s: Seq<char>) -> bool {
    forall|i: int| 0 <= i < s.len() ==> is_ascii_char(#[trigger] s[i])
}

/// One of the ten ASCII digits.
pub open spec fn is_ascii_digit(c: char) -> bool {
    '0' <= c && c <= '9'
}

/// A sign that may stand before a decimal fraction.
pub open spec fn is_sign(c: char) -> bool {
    c == '+' || c == '-'
}

/// How many ASCII digits follow one another in `h` from position `p` on.
pub open spec fn digit_run(h: Seq<char>, p: int) -> nat
    decreases h.len() - p,
{
    if 0 <= p < h.len() && is_ascii_digit(h[p]) {
        1 + digit_run(h, p + 1)
    } else {
        0
    }
}

/// Where a match of `[-+]?\d*\.\d+` that starts at `p` ends, if one does:
/// a sign is taken when there is one, then every digit, a dot, and at least
/// one digit after it, all of them. (Taking fewer digits before the dot
/// leaves a digit, not a dot, in front of the pattern's dot.)
pub open spec fn fraction_end(h: Seq<char>, p: int) -> Option<int> {
    let s = if 0 <= p < h.len() && is_sign(h[p]) {
        p + 1
    } else {
        p
    };
    let e = s + digit_run(h, s);
    if e < h.len() && h[e] == '.' && digit_run(h, e + 1) > 0 {
        Some(e + 1 + digit_run(h, e + 1))
    } else {
        None
    }
}

/// Where the match of `[-+]?\d*\.\d+|\d+` that starts at `p` ends, if one
/// does: the first alternative is tried first, then a run of digits.
pub open spec fn price_end(h: Seq<char>, p: int) -> Option<int> {
    match fraction_end(h, p) {
        Some(e) => Some(e),
        None => if digit_run(h, p) > 0 {
            Some(p + digit_run(h, p))
        } else {
            None
        },
    }
}

/// The leftmost-first match of `[-+]?\d*\.\d+|\d+` in `h` at or after
/// position `p`, for a text whose digits are all ASCII: the match that
/// starts at the first position where one starts.
pub open spec fn price_from(h: Seq<char>, p: int) -> Option<Seq<char>>
    decreases h.len() - p,
{
    if p < 0 || p >= h.len() {
        None
    } else {
        match price_end(h, p) {
            Some(e) => Some(h.subrange(p, e)),
            None => price_from(h, p + 1),
        }
    }
}

/// The price found in a word made of ASCII characters.
pub open spec fn ascii_price(w: Seq<char>) -> Option<Seq<char>> {
    price_from(w, 0)
}

/// A run of ASCII digits from `p` up to `q`, ended by a non-digit or the
/// end of the text, has length `q - p`.
pub proof fn lemma_digit_run(h: Seq<char>, p: int, q: int)
    requires
        0 <= p <= q <= h.len(),
        forall|i: int| p <= i < q ==> is_ascii_digit(#[trigger] h[i]),
        q == h.len() || !is_ascii_digit(h[q]),
    ensures
        digit_run(h, p) == q - p,
    decreases q - p,
{
    if p < q {
        lemma_digit_run(h, p + 1, q);
    }
}

/// A word that is a decimal fraction, optionally signed, with at least one
/// digit after its dot, is its own price: none of its digits is dropped.
pub proof fn lemma_fraction_word_is_its_price(w: Seq<char>, dot: int)
    requires
        0 <= dot < w.len() - 1,
        w[dot] == '.',
        forall|i: int|
            0 <= i < w.len() && i != dot && !(i == 0 && is_sign(w[0])) ==> is_ascii_digit(
                #[trigger] w[i],
            ),
    ensures
        ascii_price(w) == Some(w),
{
    let s: int = if is_sign(w[0]) {
        1
    } else {
        0
    };
    if is_sign(w[0]) {
        assert(dot != 0) by {
            assert(w[0] != '.');
        }
    }
    lemma_digit_run(w, s, dot);
    lemma_digit_run(w, dot + 1, w.len() as int);
    assert(fraction_end(w, 0) == Some(w.len() as int));
    assert(w.subrange(0, w.len() as int) =~= w);
}

/// A word of ASCII digits only is its own price.
pub proof fn lemma_digit_word_is_its_price(w: Seq<char>)
    requires
        w.len() > 0,
        forall|i: int| 0 <= i < w.len() ==> is_ascii_digit(#[trigger] w[i]),
    ensures
        ascii_price(w) == Some(w),
{
    lemma_digit_run(w, 0, w.len() as int);
    assert(w.subrange(0, w.len() as int) =~= w);
}

/// A price is a nonempty piece of the word it was found in, and it ends in
/// a digit.
pub proof fn lemma_price_is_a_piece_ending_in_a_digit(w: Seq<char>, p: int)
    requires
        0 <= p,
    ensures
        price_from(w, p) matches Some(t) ==> t.len() > 0 && is_ascii_digit(t.last()) && exists|
            i: int,
        |
            p <= i && i + t.len() <= w.len() && #[trigger] w.subrange(i, i + t.len()) == t,
    decreases w.len() - p,
{
    if p < w.len() {
        match price_end(w, p) {
            Some(e) => {
                lemma_digit_run_bound(w, p);
                let s = if is_sign(w[p]) {
                    p + 1
                } else {
                    p
                };
                lemma_digit_run_bound(w, s);
                let d = s + digit_run(w, s);
                lemma_digit_run_bound(w, d + 1);
                let t = w.subrange(p, e);
                if fraction_end(w, p) is Some {
                    lemma_digit_run_last(w, d + 1);
                } else {
                    lemma_digit_run_last(w, p);
                }
                assert(w.subrange(p, p + t.len()) == t);
            },
            None => {
                lemma_price_is_a_piece_ending_in_a_digit(w, p + 1);
            },
        }
    }
}

proof fn lemma_digit_run_bound(h: Seq<char>, p: int)
    requires
        0 <= p,
    ensures
        p + digit_run(h, p) <= h.len() || digit_run(h, p) == 0,
    decreases h.len() - p,
{
    if 0 <= p < h.len() && is_ascii_digit(h[p]) {
        lemma_digit_run_bound(h, p + 1);
    }
}

proof fn lemma_digit_run_last(h: Seq<char>, p: int)
    requires
        0 <= p,
        digit_run(h, p) > 0,
    ensures
        p + digit_run(h, p) <= h.len(),
        is_ascii_digit(h[p + digit_run(h, p) - 1]),
    decreases h.len() - p,
{
    if digit_run(h, p + 1) > 0 {
        lemma_digit_run_last(h, p + 1);
    }
}

} // verus!

use vstd::prelude::*;

use crate::pattern::{find_first_match, regex_first_match};
use crate::price::{
    ascii_price, is_ascii_digit, is_ascii_text, is_sign, lemma_digit_word_is_its_price,
    lemma_fraction_word_is_its_price,
};
use crate::text::{
    join, joined, lemma_occurs_in_trans, lemma_words_shape, lines, occurs_in, split_lines,
    split_words, views, words,
};

verus! {

/// What a price looks like at the end of a receipt line: an optionally
/// signed decimal fraction, or a run of digits.
pub const PRICE_PATTERN: &'static str = "[-+]?\\d*\\.\\d+|\\d+";

/// The description and price text that a receipt line yields, when it
/// yields one: the description is every word but the last, joined by
/// single spaces; the price is the first match of `PRICE_PATTERN` in the
/// last word.
pub open spec fn entry_of_line(line: Seq<char>) -> Option<(Seq<char>, Seq<char>)> {
    let w = words(line);
    if w.len() == 0 {
        None
    } else {
        match regex_first_match(PRICE_PATTERN@, w.last()) {
            Some(price) => Some((joined(w.drop_last(), " "@), price)),
            None => None,
        }
    }
}

/// A line whose last word is made of ASCII characters, where the price is
/// known as `ascii_price` of that word.
pub open spec fn has_ascii_last_word(line: Seq<char>) -> bool {
    words(line).len() > 0 && is_ascii_text(words(line).last())
}

/// For a line with an ASCII last word, `price` is the price found in it.
pub open spec fn price_agrees(line: Seq<char>, price: Seq<char>) -> bool {
    has_ascii_last_word(line) ==> ascii_price(words(line).last()) == Some(price)
}

/// A receipt line that ends in a price written out whole, such as `12.50`,
/// `-.5` or `15`, is booked at exactly that price: no digit is dropped.
pub proof fn lemma_written_price_is_kept(line: Seq<char>, price: Seq<char>, dot: Option<int>)
    requires
        words(line).len() > 0,
        price_agrees(line, price),
        match dot {
            Some(d) => {
                let w = words(line).last();
                &&& 0 <= d < w.len() - 1
                &&& w[d] == '.'
                &&& forall|i: int|
                    0 <= i < w.len() && i != d && !(i == 0 && is_sign(w[0])) ==> is_ascii_digit(
                        #[trigger] w[i],
                    )
            },
            None => forall|i: int|
                0 <= i < words(line).last().len() ==> is_ascii_digit(#[trigger] words(line).last()[i]),
        },
    ensures
        price == words(line).last(),
{
    let w = words(line).last();
    crate::text::lemma_words_shape(line);
    assert(w == words(line)[words(line).len() - 1]);
    assert(is_ascii_text(w)) by {
        assert forall|i: int| 0 <= i < w.len() implies crate::price::is_ascii_char(#[trigger] w[i]) by {
            if let Some(d) = dot {
                if i != d && !(i == 0 && is_sign(w[0])) {
                    assert(is_ascii_digit(w[i]));
                }
            } else {
                assert(is_ascii_digit(w[i]));
            }
        }
    }
    match dot {
        Some(d) => lemma_fraction_word_is_its_price(w, d),
        None => lemma_digit_word_is_its_price(w),
    }
}

/// Every line has an ASCII last word that holds a price.
pub open spec fn receipt_is_plainly_readable(text: Seq<char>) -> bool {
    forall|i: int|
        0 <= i < lines(text).len() ==> #[trigger] has_ascii_last_word(lines(text)[i])
            && ascii_price(words(lines(text)[i]).last()) is Some
}

/// Every line of `text` yields an entry.
pub open spec fn receipt_is_readable(text: Seq<char>) -> bool {
    forall|i: int| 0 <= i < lines(text).len() ==> (#[trigger] entry_of_line(lines(text)[i])) is Some
}

/// The entries that the lines of `text` yield, in order.
pub open spec fn receipt_entries(text: Seq<char>) -> Seq<(Seq<char>, Seq<char>)> {
    lines(text).map_values(|l: Seq<char>| entry_of_line(l)->0)
}

/// One line of a receipt: what was bought and the price text written for it.
#[derive(Debug)]
pub struct CheckEntry {
    description: String,
    price: String,
}

impl View for CheckEntry {
    type V = (Seq<char>, Seq<char>);

    closed spec fn view(&self) -> (Seq<char>, Seq<char>) {
        (self.description@, self.price@)
    }
}

impl CheckEntry {
    /// What was bought.
    pub fn description(&self) -> (r: &str)
        ensures
            r@ == self@.0,
    {
        self.description.as_str()
    }

    /// The price as it was written, for instance `12.50`, `-.5` or `3`.
    pub fn price(&self) -> (r: &str)
        ensures
            r@ == self@.1,
    {
        self.price.as_str()
    }

    /// How the entry is listed on the spending page, given the text that
    /// its price is shown as.
    pub fn display_with(&self, price_shown: &str) -> (r: String)
        ensures
            r@ == self@.0 + " — ціна: "@ + price_shown@ + " (в євро)"@,
    {
        self.description.clone().concat(" — ціна: ").concat(price_shown).concat(" (в євро)")
    }

    /// Builds an entry from the words of a line and the price found in its
    /// last word; a line whose last word holds no price yields none.
    pub fn from_words(words: Vec<String>, found: Option<String>) -> (r: Result<CheckEntry, ()>)
        requires
            words@.len() >= 1,
        ensures
            found is None ==> r is Err,
            found matches Some(p) ==> r matches Ok(e) && e@ == (
                joined(views(words@).drop_last(), " "@),
                p@,
            ),
    {
        match found {
            None => Err(()),
            Some(price) => {
                let mut rest = words;
                let ghost all = views(rest@);
                rest.pop();
                assert(views(rest@) =~= all.drop_last());
                let description = join(rest.as_slice(), " ");
                Ok(CheckEntry { description, price })
            },
        }
    }

    /// Reads one receipt line: its words are split at ASCII whitespace, the
    /// price is looked for in the last word, and the words before it make
    /// the description. A line with no price in its last word is refused.
    pub fn from_str(s: &str) -> (r: Result<CheckEntry, ()>)
        requires
            words(s@).len() >= 1,
        ensures
            r is Ok <==> entry_of_line(s@) is Some,
            r matches Ok(e) ==> e@ == entry_of_line(s@)->0,
            r matches Ok(e) ==> occurs_in(e@.1, s@),
            is_ascii_text(words(s@).last()) ==> (r is Ok <==> ascii_price(words(s@).last()) is Some),
            r matches Ok(e) ==> price_agrees(s@, e@.1),
    {
        match read_line(s) {
            Some(e) => Ok(e),
            None => Err(()),
        }
    }
}

/// A receipt: one entry for each of its lines.
#[derive(Debug)]
pub struct Check {
    pub entries: Vec<CheckEntry>,
}

impl View for Check {
    type V = Seq<(Seq<char>, Seq<char>)>;

    open spec fn view(&self) -> Seq<(Seq<char>, Seq<char>)> {
        self.entries@.map_values(|e: CheckEntry| e@)
    }
}

impl Check {
    /// Reads a receipt, one entry per line, or gives `None` when some line
    /// yields no entry (a line without words, or whose last word holds no
    /// price).
    pub fn parse(s: &str) -> (r: Option<Check>)
        ensures
            r is Some <==> receipt_is_readable(s@),
            r matches Some(c) ==> c@ == receipt_entries(s@),
            receipt_is_plainly_readable(s@) ==> r is Some,
            r matches Some(c) ==> forall|i: int|
                0 <= i < c@.len() ==> #[trigger] price_agrees(lines(s@)[i], c@[i].1),
    {
        let ls = split_lines(s);
        let n = ls.len();
        let mut entries: Vec<CheckEntry> = Vec::new();
        for i in 0..n
            invariant
                n == ls@.len(),
                views(ls@) == lines(s@),
                forall|j: int| 0 <= j < i ==> (#[trigger] entry_of_line(lines(s@)[j])) is Some,
                entries@.map_values(|e: CheckEntry| e@) =~= receipt_entries(s@).take(i as int),
                forall|j: int|
                    0 <= j < i ==> #[trigger] price_agrees(lines(s@)[j], entries@[j]@.1),
        {
            let line = ls[i].as_str();
            assert(line@ == lines(s@)[i as int]);
            match read_line(line) {
                Some(e) => {
                    let ghost before = entries@.map_values(|e: CheckEntry| e@);
                    entries.push(e);
                    assert(entries@.map_values(|e: CheckEntry| e@) =~= before.push(e@));
                    assert(receipt_entries(s@).take(i + 1) =~= receipt_entries(s@).take(
                        i as int,
                    ).push(entry_of_line(lines(s@)[i as int])->0));
                },
                None => {
                    assert(!(has_ascii_last_word(lines(s@)[i as int]) && ascii_price(
                        words(lines(s@)[i as int]).last(),
                    ) is Some));
                    assert(!receipt_is_plainly_readable(s@)) by {
                        if receipt_is_plainly_readable(s@) {
                            assert(has_ascii_last_word(lines(s@)[i as int]));
                        }
                    }
                    return None;
                },
            }
        }
        assert(receipt_entries(s@).take(n as int) =~= receipt_entries(s@));
        let c = Check { entries };
        assert forall|i: int| 0 <= i < c@.len() implies #[trigger] price_agrees(
            lines(s@)[i],
            c@[i].1,
        ) by {
            assert(c@[i] == c.entries@[i]@);
        }
        Some(c)
    }
}

/// Reads one receipt line of any shape: the entry it yields, if any.
fn read_line(line: &str) -> (r: Option<CheckEntry>)
    ensures
        r is Some <==> entry_of_line(line@) is Some,
        r matches Some(e) ==> e@ == entry_of_line(line@)->0 && occurs_in(e@.1, line@),
        has_ascii_last_word(line@) ==> (r is Some <==> ascii_price(words(line@).last()) is Some),
        r matches Some(e) ==> price_agrees(line@, e@.1),
{
    let ws = split_words(line);
    let n = ws.len();
    if n == 0 {
        return None;
    }
    match find_first_match(PRICE_PATTERN, ws[n - 1].as_str()) {
        Err(_) => None,
        Ok(found) => {
            proof {
                assert(views(ws@).last() == ws@[n - 1]@);
                lemma_words_shape(line@);
                if found is Some {
                    lemma_occurs_in_trans(found->0@, ws@[n - 1]@, line@);
                }
            }
            match CheckEntry::from_words(ws, found) {
                Ok(e) => Some(e),
                Err(_) => None,
            }
        },
    }
}

} // verus!

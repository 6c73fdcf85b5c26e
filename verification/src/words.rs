//! Splitting text into whitespace-separated words, and trimming it.

use vstd::prelude::*;

verus! {

/// The characters with the Unicode `White_Space` property.
pub open spec fn is_white_space(c: char) -> bool {
    let u = c as u32;
    ||| 0x09 <= u <= 0x0D
    ||| u == 0x20
    ||| u == 0x85
    ||| u == 0xA0
    ||| u == 0x1680
    ||| 0x2000 <= u <= 0x200A
    ||| u == 0x2028
    ||| u == 0x2029
    ||| u == 0x202F
    ||| u == 0x205F
    ||| u == 0x3000
}

/// `char::is_whitespace`: whether the character has the Unicode
/// `White_Space` property, the code points listed in `is_white_space`.
#[verifier::external_body]
fn char_is_whitespace(c: char) -> (r: bool)
    ensures
        r == is_white_space(c),
{
    c.is_whitespace()
}

/// The index of the first character at or after `i` that is not
/// whitespace, or the length when there is none.
pub open spec fn skip_space(s: Seq<char>, i: int) -> int
    decreases s.len() - i,
{
    if i < 0 || i >= s.len() {
        s.len() as int
    } else if is_white_space(s[i]) {
        skip_space(s, i + 1)
    } else {
        i
    }
}

/// The index of the first whitespace character at or after `i`, or the
/// length when there is none.
pub open spec fn skip_word(s: Seq<char>, i: int) -> int
    decreases s.len() - i,
{
    if i < 0 || i >= s.len() {
        s.len() as int
    } else if is_white_space(s[i]) {
        i
    } else {
        skip_word(s, i + 1)
    }
}

/// The end of `s` without its trailing whitespace, looking back from `j`.
pub open spec fn trim_end_at(s: Seq<char>, j: int) -> int
    decreases j,
{
    if j <= 0 || j > s.len() {
        0
    } else if is_white_space(s[j - 1]) {
        trim_end_at(s, j - 1)
    } else {
        j
    }
}

/// `s` without leading and trailing whitespace.
pub open spec fn spec_trim(s: Seq<char>) -> Seq<char> {
    let start = skip_space(s, 0);
    if start < s.len() {
        s.subrange(start, trim_end_at(s, s.len() as int))
    } else {
        Seq::empty()
    }
}

/// Skipping whitespace stays within the text and stops at a character
/// that is not whitespace, or at the end.
pub proof fn lemma_skip_space_bounds(s: Seq<char>, i: int)
    requires
        0 <= i <= s.len(),
    ensures
        i <= skip_space(s, i) <= s.len(),
        skip_space(s, i) < s.len() ==> !is_white_space(s[skip_space(s, i)]),
    decreases s.len() - i,
{
    if i < s.len() {
        lemma_skip_space_bounds(s, i + 1);
    }
}

/// Skipping a word stays within the text.
pub proof fn lemma_skip_word_bounds(s: Seq<char>, i: int)
    requires
        0 <= i <= s.len(),
    ensures
        i <= skip_word(s, i) <= s.len(),
    decreases s.len() - i,
{
    if i < s.len() {
        lemma_skip_word_bounds(s, i + 1);
    }
}

/// A word that starts at a character that is not whitespace is not empty.
pub proof fn lemma_word_nonempty(s: Seq<char>, i: int)
    requires
        0 <= i < s.len(),
        !is_white_space(s[i]),
    ensures
        i < skip_word(s, i) <= s.len(),
{
    lemma_skip_word_bounds(s, i + 1);
}

/// The words of `s`, in order: its maximal runs of characters that are not
/// whitespace (what `str::split_whitespace` yields).
pub open spec fn split_words(s: Seq<char>) -> Seq<Seq<char>>
    decreases s.len(),
{
    let start = skip_space(s, 0);
    if start >= s.len() {
        Seq::empty()
    } else {
        proof {
            lemma_skip_space_bounds(s, 0);
            lemma_word_nonempty(s, start);
        }
        let end = skip_word(s, start);
        seq![s.subrange(start, end)] + split_words(s.subrange(end, s.len() as int))
    }
}

/// Every character from `i` up to `skip_space(s, i)` is whitespace.
pub proof fn lemma_skip_space_skips_space(s: Seq<char>, i: int)
    requires
        0 <= i <= s.len(),
    ensures
        forall|k: int| i <= k < skip_space(s, i) ==> is_white_space(#[trigger] s[k]),
    decreases s.len() - i,
{
    if i < s.len() && is_white_space(s[i]) {
        lemma_skip_space_skips_space(s, i + 1);
    }
}

/// Every character from `i` up to `skip_word(s, i)` is not whitespace,
/// and the run ends at whitespace or at the end of the text.
pub proof fn lemma_skip_word_skips_word(s: Seq<char>, i: int)
    requires
        0 <= i <= s.len(),
    ensures
        forall|k: int| i <= k < skip_word(s, i) ==> !is_white_space(#[trigger] s[k]),
        skip_word(s, i) == s.len() || is_white_space(s[skip_word(s, i)]),
    decreases s.len() - i,
{
    lemma_skip_word_bounds(s, i);
    if i < s.len() && !is_white_space(s[i]) {
        lemma_skip_word_skips_word(s, i + 1);
    }
}

/// What the next word of a text is, stated over its characters: after a
/// run of whitespace (possibly empty) at the start, a nonempty run of
/// characters none of which is whitespace, ending at whitespace or at the
/// end of the text. When there is no such run, the text is all whitespace.
pub proof fn lemma_next_word_shape(s: Seq<char>)
    ensures
        ({
            let a = skip_space(s, 0);
            let e = skip_word(s, a);
            &&& 0 <= a <= s.len()
            &&& forall|k: int| 0 <= k < a ==> is_white_space(#[trigger] s[k])
            &&& a < s.len() ==> {
                &&& a < e <= s.len()
                &&& forall|k: int| a <= k < e ==> !is_white_space(#[trigger] s[k])
                &&& (e == s.len() || is_white_space(s[e]))
            }
        }),
{
    lemma_skip_space_bounds(s, 0);
    lemma_skip_space_skips_space(s, 0);
    let a = skip_space(s, 0);
    if a < s.len() {
        lemma_word_nonempty(s, a);
        lemma_skip_word_skips_word(s, a);
    }
}

/// Every word of a text is nonempty and holds no whitespace.
pub proof fn lemma_split_words_are_words(s: Seq<char>)
    ensures
        forall|i: int|
            0 <= i < split_words(s).len() ==> (#[trigger] split_words(s)[i]).len() > 0 && forall|
                k: int,
            |
                0 <= k < split_words(s)[i].len() ==> !is_white_space(#[trigger] split_words(s)[i][k]),
    decreases s.len(),
{
    let a = skip_space(s, 0);
    if a < s.len() {
        lemma_next_word_shape(s);
        let e = skip_word(s, a);
        let tail = s.subrange(e, s.len() as int);
        lemma_split_words_are_words(tail);
        let w = s.subrange(a, e);
        assert(split_words(s) == seq![w] + split_words(tail));
        assert forall|i: int| 0 <= i < split_words(s).len() implies (#[trigger] split_words(
            s,
        )[i]).len() > 0 && forall|k: int|
            0 <= k < split_words(s)[i].len() ==> !is_white_space(
                #[trigger] split_words(s)[i][k],
            ) by {
            if i == 0 {
                assert forall|k: int| 0 <= k < w.len() implies !is_white_space(#[trigger] w[k]) by {
                    assert(w[k] == s[a + k]);
                }
            } else {
                assert(split_words(s)[i] == split_words(tail)[i - 1]);
            }
        }
    }
}

proof fn lemma_trim_end_skips_space(s: Seq<char>, j: int)
    requires
        0 <= j <= s.len(),
    ensures
        0 <= trim_end_at(s, j) <= j,
        forall|k: int| trim_end_at(s, j) <= k < j ==> is_white_space(#[trigger] s[k]),
        trim_end_at(s, j) > 0 ==> !is_white_space(s[trim_end_at(s, j) - 1]),
    decreases j,
{
    if j > 0 && is_white_space(s[j - 1]) {
        lemma_trim_end_skips_space(s, j - 1);
    }
}

proof fn lemma_trim_end_past(s: Seq<char>, j: int, k: int)
    requires
        0 <= k < j <= s.len(),
        !is_white_space(s[k]),
    ensures
        k < trim_end_at(s, j),
    decreases j,
{
    if j > k + 1 && is_white_space(s[j - 1]) {
        lemma_trim_end_past(s, j - 1, k);
    }
}

/// What trimming gives, stated over the characters: the text is some
/// whitespace, then the result, then some whitespace; the result is empty
/// (the text being all whitespace) or starts and ends with a character
/// that is not whitespace.
pub proof fn lemma_trim_shape(s: Seq<char>)
    ensures
        ({
            let r = spec_trim(s);
            &&& r.len() == 0 ==> forall|k: int| 0 <= k < s.len() ==> is_white_space(#[trigger] s[k])
            &&& r.len() > 0 ==> {
                &&& !is_white_space(r[0])
                &&& !is_white_space(r.last())
                &&& exists|a: int|
                    0 <= a && a + r.len() <= s.len() && #[trigger] s.subrange(a, a + r.len()) == r
                        && (forall|k: int| 0 <= k < a ==> is_white_space(#[trigger] s[k])) && (
                    forall|k: int| a + r.len() <= k < s.len() ==> is_white_space(#[trigger] s[k]))
            }
        }),
{
    lemma_skip_space_bounds(s, 0);
    lemma_skip_space_skips_space(s, 0);
    lemma_trim_end_skips_space(s, s.len() as int);
    let a = skip_space(s, 0);
    let e = trim_end_at(s, s.len() as int);
    if a < s.len() {
        lemma_trim_end_past(s, s.len() as int, a);
        let r = spec_trim(s);
        assert(r =~= s.subrange(a, e));
        assert(r[0] == s[a]);
        assert(r.last() == s[e - 1]);
        assert(s.subrange(a, a + r.len()) == r);
    }
}

fn find_non_space(s: &str, from: usize) -> (r: usize)
    requires
        from <= s@.len(),
    ensures
        r == skip_space(s@, from as int),
{
    let n = s.unicode_len();
    let mut i = from;
    while i < n && char_is_whitespace(s.get_char(i))
        invariant
            n == s@.len(),
            from <= i <= n,
            skip_space(s@, from as int) == skip_space(s@, i as int),
        decreases n - i,
    {
        i = i + 1;
    }
    i
}

fn find_space(s: &str, from: usize) -> (r: usize)
    requires
        from <= s@.len(),
    ensures
        r == skip_word(s@, from as int),
{
    let n = s.unicode_len();
    let mut i = from;
    while i < n && !char_is_whitespace(s.get_char(i))
        invariant
            n == s@.len(),
            from <= i <= n,
            skip_word(s@, from as int) == skip_word(s@, i as int),
        decreases n - i,
    {
        i = i + 1;
    }
    i
}

/// The words of a text, handed out one at a time.
pub struct Words {
    rest: String,
}

impl View for Words {
    type V = Seq<char>;

    /// The text not yet split.
    closed spec fn view(&self) -> Seq<char> {
        self.rest@
    }
}

impl Words {
    pub fn new(text: &str) -> (r: Words)
        ensures
            r@ == text@,
    {
        Words { rest: String::from_str(text) }
    }

    /// The next word: after skipping leading whitespace, the characters up
    /// to the next whitespace; the text after the word remains. `None`,
    /// leaving the text as it is, when only whitespace is left. So the
    /// calls hand out exactly the words of the text, in order, and then
    /// `None` on every later call.
    pub fn next(&mut self) -> (r: Option<String>)
        ensures
            r is None <==> split_words(old(self)@).len() == 0,
            r is None ==> forall|k: int|
                0 <= k < old(self)@.len() ==> is_white_space(#[trigger] old(self)@[k]),
            r matches Some(w) ==> {
                let lead = (old(self)@.len() - w@.len() - final(self)@.len()) as int;
                &&& w@.len() > 0
                &&& forall|k: int| 0 <= k < w@.len() ==> !is_white_space(#[trigger] w@[k])
                &&& 0 <= lead
                &&& old(self)@ == old(self)@.take(lead) + w@ + final(self)@
                &&& forall|k: int| 0 <= k < lead ==> is_white_space(#[trigger] old(self)@[k])
                &&& (final(self)@.len() == 0 || is_white_space(final(self)@[0]))
            },
            r matches Some(w) ==> {
                &&& w@ == split_words(old(self)@)[0]
                &&& split_words(final(self)@) == split_words(old(self)@).drop_first()
                &&& final(self)@.len() < old(self)@.len()
            },
            ({
                let s = old(self)@;
                let start = skip_space(s, 0);
                let end = skip_word(s, start);
                if start < s.len() {
                    &&& r matches Some(w) && w@ == s.subrange(start, end)
                    &&& final(self)@ == s.subrange(end, s.len() as int)
                } else {
                    &&& r is None
                    &&& final(self)@ == s
                }
            }),
    {
        let n = self.rest.as_str().unicode_len();
        let start = find_non_space(self.rest.as_str(), 0);
        proof {
            lemma_next_word_shape(self.rest@);
        }
        if start >= n {
            return None;
        }
        let end = find_space(self.rest.as_str(), start);
        proof {
            lemma_skip_space_bounds(self.rest@, 0);
            lemma_word_nonempty(self.rest@, start as int);
            let s = self.rest@;
            let rest_words = split_words(s.subrange(end as int, s.len() as int));
            assert(split_words(s) == seq![s.subrange(start as int, end as int)] + rest_words);
            assert(split_words(s).drop_first() =~= rest_words);
            assert(s =~= s.take(start as int) + s.subrange(start as int, end as int) + s.subrange(
                end as int,
                s.len() as int,
            ));
            let w = s.subrange(start as int, end as int);
            assert forall|k: int| 0 <= k < w.len() implies !is_white_space(#[trigger] w[k]) by {
                assert(w[k] == s[start + k]);
            }
        }
        let word = String::from_str(self.rest.as_str().substring_char(start, end));
        let tail = String::from_str(self.rest.as_str().substring_char(end, n));
        self.rest = tail;
        Some(word)
    }
}

/// Trimming of whitespace at both ends.
pub trait Trimmed {
    fn trimmed(self) -> Self;
}

impl Trimmed for String {
    /// The text without leading and trailing whitespace.
    fn trimmed(self) -> (r: String)
        ensures
            r@ == spec_trim(self@),
            r@.len() > 0 ==> !is_white_space(r@[0]) && !is_white_space(r@.last()),
            r@.len() == 0 ==> forall|k: int|
                0 <= k < self@.len() ==> is_white_space(#[trigger] self@[k]),
    {
        proof {
            lemma_trim_shape(self@);
        }
        let n = self.as_str().unicode_len();
        let start = find_non_space(self.as_str(), 0);
        if start >= n {
            return String::new();
        }
        proof {
            lemma_skip_space_bounds(self@, 0);
        }
        let mut end = n;
        while end > start && char_is_whitespace(self.as_str().get_char(end - 1))
            invariant
                n == self@.len(),
                start < n,
                start < end <= n,
                !is_white_space(self@[start as int]),
                trim_end_at(self@, n as int) == trim_end_at(self@, end as int),
            decreases end,
        {
            end = end - 1;
        }
        assert(trim_end_at(self@, end as int) == end);
        String::from_str(self.as_str().substring_char(start, end))
    }
}

} // verus!

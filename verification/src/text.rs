//! Text at the level of characters: what counts as whitespace, trimming,
//! cutting a line at a separator and cutting a segment into words.
//!
//! Each notion is defined on `Seq<char>`, and the executable function beside
//! it is proved to compute it.

use std::collections::VecDeque;
use vstd::prelude::*;
use vstd::string::*;

verus! {

/// The characters with the Unicode `White_Space` property.
pub open spec fn is_whitespace(c: char) -> bool {
    let n = c as u32;
    ||| 0x09 <= n <= 0x0D
    ||| n == 0x20
    ||| n == 0x85
    ||| n == 0xA0
    ||| n == 0x1680
    ||| 0x2000 <= n <= 0x200A
    ||| n == 0x2028
    ||| n == 0x2029
    ||| n == 0x202F
    ||| n == 0x205F
    ||| n == 0x3000
}

/// `s` without its leading whitespace.
pub open spec fn trim_start(s: Seq<char>) -> Seq<char>
    decreases s.len(),
{
    if s.len() > 0 && is_whitespace(s.first()) {
        trim_start(s.drop_first())
    } else {
        s
    }
}

/// `s` without its trailing whitespace.
pub open spec fn trim_end(s: Seq<char>) -> Seq<char>
    decreases s.len(),
{
    if s.len() > 0 && is_whitespace(s.last()) {
        trim_end(s.drop_last())
    } else {
        s
    }
}

/// `s` without its leading and trailing whitespace.
pub open spec fn trim(s: Seq<char>) -> Seq<char> {
    trim_end(trim_start(s))
}

/// Length of the longest prefix of `s` in which `sep` does not occur.
pub open spec fn segment_len(s: Seq<char>, sep: char) -> nat
    decreases s.len(),
{
    if s.len() == 0 || s.first() == sep {
        0
    } else {
        1 + segment_len(s.drop_first(), sep)
    }
}

/// The pieces of `s` between occurrences of `sep`, in order. There is always
/// one piece more than there are separators, so the result is never empty.
pub open spec fn split(s: Seq<char>, sep: char) -> Seq<Seq<char>>
    decreases s.len(),
{
    let n = segment_len(s, sep) as int;
    if n >= s.len() {
        seq![s]
    } else {
        seq![s.take(n)] + split(s.skip(n + 1), sep)
    }
}

/// Length of the longest prefix of `s` that holds no whitespace.
pub open spec fn word_len(s: Seq<char>) -> nat
    decreases s.len(),
{
    if s.len() == 0 || is_whitespace(s.first()) {
        0
    } else {
        1 + word_len(s.drop_first())
    }
}

/// The words of `s`: its maximal runs of characters that are not whitespace,
/// in order.
pub open spec fn tokens(s: Seq<char>) -> Seq<Seq<char>>
    decreases s.len(),
{
    if s.len() == 0 {
        Seq::empty()
    } else if is_whitespace(s.first()) {
        tokens(s.drop_first())
    } else {
        proof {
            lemma_word_len_bound(s);
        }
        let n = word_len(s) as int;
        seq![s.take(n)] + tokens(s.skip(n))
    }
}

/// Whether `w` can stand as one word: it is not empty and holds no whitespace.
pub open spec fn is_word(w: Seq<char>) -> bool {
    &&& w.len() > 0
    &&& forall|k: int| 0 <= k < w.len() ==> !is_whitespace(#[trigger] w[k])
}

/// Whether `c` does not occur in `s`.
pub open spec fn lacks(s: Seq<char>, c: char) -> bool {
    forall|k: int| 0 <= k < s.len() ==> #[trigger] s[k] != c
}

/// `words` written one after the other, with `sep` between neighbours.
pub open spec fn join(words: Seq<Seq<char>>, sep: Seq<char>) -> Seq<char>
    decreases words.len(),
{
    if words.len() == 0 {
        Seq::empty()
    } else if words.len() == 1 {
        words[0]
    } else {
        words[0] + sep + join(words.drop_first(), sep)
    }
}

/// The texts of `strings`, in the same order.
pub open spec fn texts(strings: Seq<String>) -> Seq<Seq<char>> {
    strings.map_values(|s: String| s@)
}

/// A word is never longer than the text it starts.
pub proof fn lemma_word_len_bound(s: Seq<char>)
    ensures
        word_len(s) <= s.len(),
    decreases s.len(),
{
    if s.len() > 0 && !is_whitespace(s.first()) {
        lemma_word_len_bound(s.drop_first());
    }
}

/// No whitespace stands before the end of a word.
pub proof fn lemma_word_len_prefix(s: Seq<char>)
    ensures
        forall|k: int| 0 <= k < word_len(s) ==> !is_whitespace(#[trigger] s[k]),
    decreases s.len(),
{
    if s.len() > 0 && !is_whitespace(s.first()) {
        let rest = s.drop_first();
        lemma_word_len_prefix(rest);
        lemma_word_len_bound(rest);
        assert forall|k: int| 0 <= k < word_len(s) implies !is_whitespace(#[trigger] s[k]) by {
            if k > 0 {
                assert(rest[k - 1] == s[k]);
            }
        }
    }
}

/// Whatever the text, each of its tokens is a word.
pub proof fn lemma_tokens_are_words(s: Seq<char>)
    ensures
        forall|i: int| 0 <= i < tokens(s).len() ==> is_word(#[trigger] tokens(s)[i]),
    decreases s.len(),
{
    if s.len() == 0 {
    } else if is_whitespace(s.first()) {
        lemma_tokens_are_words(s.drop_first());
        assert(tokens(s) == tokens(s.drop_first()));
    } else {
        let n = word_len(s) as int;
        lemma_word_len_bound(s);
        lemma_word_len_prefix(s);
        lemma_tokens_are_words(s.skip(n));
        let rest = tokens(s.skip(n));
        assert forall|i: int| 0 <= i < tokens(s).len() implies is_word(#[trigger] tokens(s)[i]) by {
            if i > 0 {
                assert(tokens(s)[i] == rest[i - 1]);
            }
        }
    }
}

/// `word_len` is the position of the first whitespace character, or the
/// length of the text where there is none.
pub proof fn lemma_word_len_is(s: Seq<char>, n: int)
    requires
        0 <= n <= s.len(),
        forall|k: int| 0 <= k < n ==> !is_whitespace(#[trigger] s[k]),
        n < s.len() ==> is_whitespace(s[n]),
    ensures
        word_len(s) == n,
    decreases s.len(),
{
    if n > 0 {
        lemma_word_len_is(s.drop_first(), n - 1);
    }
}

/// `segment_len` is the position of the first separator, or the length of the
/// text where there is none.
pub proof fn lemma_segment_len_is(s: Seq<char>, sep: char, n: int)
    requires
        0 <= n <= s.len(),
        forall|k: int| 0 <= k < n ==> #[trigger] s[k] != sep,
        n < s.len() ==> s[n] == sep,
    ensures
        segment_len(s, sep) == n,
    decreases s.len(),
{
    if n > 0 {
        lemma_segment_len_is(s.drop_first(), sep, n - 1);
    }
}

/// A segment is never longer than the text it starts, holds no separator,
/// and ends where the text ends or a separator stands.
pub proof fn lemma_segment_len_prefix(s: Seq<char>, sep: char)
    ensures
        segment_len(s, sep) <= s.len(),
        forall|k: int| 0 <= k < segment_len(s, sep) ==> #[trigger] s[k] != sep,
        lacks(s.take(segment_len(s, sep) as int), sep),
        segment_len(s, sep) < s.len() ==> s[segment_len(s, sep) as int] == sep,
    decreases s.len(),
{
    if s.len() > 0 && s.first() != sep {
        let rest = s.drop_first();
        lemma_segment_len_prefix(rest, sep);
        let n = segment_len(s, sep) as int;
        assert forall|k: int| 0 <= k < n implies #[trigger] s[k] != sep by {
            if k > 0 {
                assert(rest[k - 1] == s[k]);
            }
        }
        if n < s.len() {
            assert(rest[n - 1] == s[n]);
        }
    }
}

/// No piece of a split text holds the separator.
pub proof fn lemma_split_lacks(s: Seq<char>, sep: char)
    ensures
        forall|i: int| 0 <= i < split(s, sep).len() ==> lacks(#[trigger] split(s, sep)[i], sep),
    decreases s.len(),
{
    let n = segment_len(s, sep) as int;
    lemma_segment_len_prefix(s, sep);
    if n >= s.len() {
        assert(s.take(n) =~= s);
    } else {
        let rest = split(s.skip(n + 1), sep);
        lemma_split_lacks(s.skip(n + 1), sep);
        assert forall|i: int| 0 <= i < split(s, sep).len() implies lacks(
            #[trigger] split(s, sep)[i],
            sep,
        ) by {
            if i > 0 {
                assert(split(s, sep)[i] == rest[i - 1]);
            }
        }
    }
}

/// Trimming brings no character in.
pub proof fn lemma_trim_lacks(s: Seq<char>, c: char)
    requires
        lacks(s, c),
    ensures
        lacks(trim_start(s), c),
        lacks(trim_end(s), c),
        lacks(trim(s), c),
    decreases s.len(),
{
    if s.len() > 0 {
        lemma_trim_lacks(s.drop_first(), c);
        lemma_trim_lacks(s.drop_last(), c);
    }
    lemma_trim_end_lacks(trim_start(s), c);
}

/// Taking trailing whitespace off brings no character in.
proof fn lemma_trim_end_lacks(s: Seq<char>, c: char)
    requires
        lacks(s, c),
    ensures
        lacks(trim_end(s), c),
    decreases s.len(),
{
    if s.len() > 0 {
        lemma_trim_end_lacks(s.drop_last(), c);
    }
}

/// Cutting a text into words brings no character in.
pub proof fn lemma_tokens_lack(s: Seq<char>, c: char)
    requires
        lacks(s, c),
    ensures
        forall|i: int| 0 <= i < tokens(s).len() ==> lacks(#[trigger] tokens(s)[i], c),
    decreases s.len(),
{
    if s.len() == 0 {
    } else if is_whitespace(s.first()) {
        lemma_tokens_lack(s.drop_first(), c);
        assert(tokens(s) == tokens(s.drop_first()));
    } else {
        let n = word_len(s) as int;
        lemma_word_len_bound(s);
        lemma_tokens_lack(s.skip(n), c);
        let rest = tokens(s.skip(n));
        assert forall|i: int| 0 <= i < tokens(s).len() implies lacks(
            #[trigger] tokens(s)[i],
            c,
        ) by {
            if i > 0 {
                assert(tokens(s)[i] == rest[i - 1]);
            }
        }
    }
}

/// Joining one more word: it follows what was joined before, after a
/// separator unless it is the first.
pub proof fn lemma_join_push(words: Seq<Seq<char>>, word: Seq<char>, sep: Seq<char>)
    ensures
        join(words.push(word), sep) == if words.len() == 0 {
            word
        } else {
            join(words, sep) + sep + word
        },
    decreases words.len(),
{
    if words.len() > 0 {
        let rest = words.drop_first();
        lemma_join_push(rest, word, sep);
        assert(words.push(word).drop_first() =~= rest.push(word));
    }
}

/// Tells whether `c` is whitespace.
pub fn char_is_whitespace(c: char) -> (b: bool)
    ensures
        b == is_whitespace(c),
{
    let n: u32 = c as u32;
    (0x09 <= n && n <= 0x0D) || n == 0x20 || n == 0x85 || n == 0xA0 || n == 0x1680 || (0x2000 <= n
        && n <= 0x200A) || n == 0x2028 || n == 0x2029 || n == 0x202F || n == 0x205F || n == 0x3000
}

/// The characters of `text`, one by one.
pub fn chars_of(text: &str) -> (chars: Vec<char>)
    ensures
        chars@ == text@,
{
    let mut chars: Vec<char> = Vec::new();
    for c in it: text.chars()
        invariant
            it.seq() == text@,
            chars@ == it.seq().take(it.index()),
    {
        chars.push(c);
    }
    chars
}

/// Trims the part of `chars` from `lo` up to `hi`: returns the bounds of what
/// is left of it once the whitespace at both ends is gone.
pub fn trim_bounds(chars: &Vec<char>, lo: usize, hi: usize) -> (bounds: (usize, usize))
    requires
        lo <= hi <= chars.len(),
    ensures
        lo <= bounds.0 <= bounds.1 <= hi,
        chars@.subrange(bounds.0 as int, bounds.1 as int) == trim(
            chars@.subrange(lo as int, hi as int),
        ),
{
    let mut a: usize = lo;
    while a < hi && char_is_whitespace(chars[a])
        invariant
            lo <= a <= hi <= chars.len(),
            trim_start(chars@.subrange(lo as int, hi as int)) == trim_start(
                chars@.subrange(a as int, hi as int),
            ),
        decreases hi - a,
    {
        assert(chars@.subrange(a as int, hi as int).drop_first() =~= chars@.subrange(
            a + 1,
            hi as int,
        ));
        a += 1;
    }
    let mut b: usize = hi;
    while a < b && char_is_whitespace(chars[b - 1])
        invariant
            a <= b <= hi <= chars.len(),
            trim_end(chars@.subrange(a as int, hi as int)) == trim_end(
                chars@.subrange(a as int, b as int),
            ),
        decreases b - a,
    {
        assert(chars@.subrange(a as int, b as int).drop_last() =~= chars@.subrange(
            a as int,
            b - 1,
        ));
        b -= 1;
    }
    (a, b)
}

/// Cuts `text` into its words.
pub fn tokenize(text: &str) -> (words: VecDeque<String>)
    ensures
        texts(words@) == tokens(text@),
{
    let chars = chars_of(text);
    let n: usize = chars.len();
    let mut words: VecDeque<String> = VecDeque::new();
    let mut i: usize = 0;
    assert(text@.skip(0) =~= text@);
    while i < n
        invariant
            n == chars.len(),
            chars@ == text@,
            i <= n,
            tokens(text@) == texts(words@) + tokens(text@.skip(i as int)),
        decreases n - i,
    {
        if char_is_whitespace(chars[i]) {
            assert(text@.skip(i as int).drop_first() =~= text@.skip(i + 1));
            i += 1;
        } else {
            let start: usize = i;
            while i < n && !char_is_whitespace(chars[i])
                invariant
                    n == chars.len(),
                    chars@ == text@,
                    start <= i <= n,
                    forall|k: int| start <= k < i ==> !is_whitespace(#[trigger] text@[k]),
                decreases n - i,
            {
                i += 1;
            }
            let word = String::from_str(text.substring_char(start, i));
            proof {
                let rest = text@.skip(start as int);
                lemma_word_len_is(rest, i - start);
                assert(rest.take(i - start) =~= word@);
                assert(rest.skip(i - start) =~= text@.skip(i as int));
            }
            words.push_back(word);
        }
    }
    words
}

/// Appends `word` to `text`, after `sep` unless `first` says that nothing
/// was written before.
pub fn push_joined(text: &mut String, word: &str, sep: &str, first: bool)
    ensures
        final(text)@ == if first {
            old(text)@ + word@
        } else {
            old(text)@ + sep@ + word@
        },
{
    if !first {
        text.append(sep);
    }
    text.append(word);
}

} // verus!

//! The tokenizer for source code.
//!
//! A token is a maximal run of alphanumeric characters and `_ $ @ # -`,
//! in lower case. Everything else separates tokens. A token longer than 100
//! bytes is dropped; the tokens behind it keep their positions.

use vstd::prelude::*;
use crate::text::{from_chars, lowercase, lowercase_of, slice_of, to_chars};
use crate::words::{
    find_words, flags_of, in_alphabet, is_separated, lemma_no_runs, lemma_words_append,
    lemma_words_ordered, shifted, span_views, words, Alphabet,
};

verus! {

/// The longest token that is kept, in bytes.
pub const MAX_TOKEN_BYTES: usize = 100;

/// A token of a text.
#[derive(Debug, Clone)]
pub struct Token {
    /// The token in lower case.
    pub text: String,
    /// The index of its first character in the text.
    pub start: usize,
    /// The index behind its last character.
    pub end: usize,
    /// Its number among the words of the text, counted from 0.
    pub position: usize,
}

/// The mathematical value of a token.
pub struct TokenView {
    pub text: Seq<char>,
    pub start: int,
    pub end: int,
    pub position: int,
}

impl View for Token {
    type V = TokenView;

    open spec fn view(&self) -> TokenView {
        TokenView {
            text: self.text@,
            start: self.start as int,
            end: self.end as int,
            position: self.position as int,
        }
    }
}

/// The views of a list of tokens.
pub open spec fn token_views(tokens: Seq<Token>) -> Seq<TokenView> {
    Seq::new(tokens.len(), |i: int| tokens[i]@)
}

/// The number of bytes of a character in UTF-8.
pub open spec fn char_width(c: char) -> int {
    if (c as u32) < 0x80 {
        1
    } else if (c as u32) < 0x800 {
        2
    } else if (c as u32) < 0x10000 {
        3
    } else {
        4
    }
}

/// The number of bytes of a text in UTF-8.
pub open spec fn utf8_len(text: Seq<char>) -> int
    decreases text.len(),
{
    if text.len() == 0 {
        0
    } else {
        utf8_len(text.drop_last()) + char_width(text.last())
    }
}

/// The token is short enough to be kept.
pub open spec fn is_short(text: Seq<char>) -> bool {
    utf8_len(text) <= MAX_TOKEN_BYTES
}

/// The token that word `k` of a text becomes.
pub open spec fn token_of(text: Seq<char>, k: int) -> TokenView {
    let (start, end) = words(text, Alphabet::Code)[k];
    TokenView { text: lowercase_of(text.subrange(start, end)), start, end, position: k }
}

/// The tokens of the first `n` words of a text.
pub open spec fn tokens_upto(text: Seq<char>, n: int) -> Seq<TokenView>
    decreases n,
{
    if n <= 0 {
        Seq::empty()
    } else {
        let before = tokens_upto(text, n - 1);
        if is_short(token_of(text, n - 1).text) {
            before.push(token_of(text, n - 1))
        } else {
            before
        }
    }
}

/// The tokens of a text.
pub open spec fn tokens_of(text: Seq<char>) -> Seq<TokenView> {
    tokens_upto(text, words(text, Alphabet::Code).len() as int)
}

fn char_width_exec(c: char) -> (w: usize)
    ensures
        w == char_width(c),
        1 <= w <= 4,
{
    let code = c as u32;
    if code < 0x80 {
        1
    } else if code < 0x800 {
        2
    } else if code < 0x10000 {
        3
    } else {
        4
    }
}

proof fn lemma_utf8_len_grows(text: Seq<char>, n: int)
    requires
        0 <= n <= text.len(),
    ensures
        0 <= utf8_len(text.take(n)) <= utf8_len(text),
    decreases text.len() - n,
{
    if n == text.len() {
        assert(text.take(n) =~= text);
        lemma_utf8_len_nonnegative(text);
    } else {
        lemma_utf8_len_grows(text, n + 1);
        assert(text.take(n + 1).drop_last() =~= text.take(n));
        lemma_utf8_len_nonnegative(text.take(n));
    }
}

proof fn lemma_utf8_len_nonnegative(text: Seq<char>)
    ensures
        utf8_len(text) >= 0,
    decreases text.len(),
{
    if text.len() > 0 {
        lemma_utf8_len_nonnegative(text.drop_last());
    }
}

/// Whether a token is short enough to be kept.
pub fn is_short_token(text: &[char]) -> (r: bool)
    ensures
        r == is_short(text@),
{
    let mut bytes: usize = 0;
    let mut i: usize = 0;
    assert(text@.take(0) =~= Seq::<char>::empty());
    while i < text.len()
        invariant
            i <= text.len(),
            bytes == utf8_len(text@.take(i as int)),
            bytes <= MAX_TOKEN_BYTES,
        decreases text.len() - i,
    {
        proof {
            assert(text@.take(i + 1).drop_last() =~= text@.take(i as int));
            assert(text@.take(i + 1).last() == text@[i as int]);
        }
        bytes = bytes + char_width_exec(text[i]);
        if bytes > MAX_TOKEN_BYTES {
            proof {
                lemma_utf8_len_grows(text@, i + 1);
            }
            return false;
        }
        i += 1;
    }
    assert(text@.take(text@.len() as int) =~= text@);
    true
}

/// The tokens of a text, in order.
pub fn tokenize(text: &str) -> (tokens: Vec<Token>)
    ensures
        token_views(tokens@) == tokens_of(text@),
{
    let chars = to_chars(text);
    let spans = find_words(&chars, Alphabet::Code);
    proof {
        lemma_words_ordered(chars@, Alphabet::Code);
    }
    let mut tokens: Vec<Token> = Vec::new();
    let mut k: usize = 0;
    assert(token_views(tokens@) =~= Seq::empty());
    while k < spans.len()
        invariant
            k <= spans.len(),
            chars@ == text@,
            span_views(spans@) == words(text@, Alphabet::Code),
            forall|i: int|
                0 <= i < words(text@, Alphabet::Code).len() ==> 0 <= (#[trigger] words(
                    text@,
                    Alphabet::Code,
                )[i]).0 < words(text@, Alphabet::Code)[i].1 <= text@.len(),
            token_views(tokens@) == tokens_upto(text@, k as int),
        decreases spans.len() - k,
    {
        let span = spans[k];
        assert(span_views(spans@)[k as int] == (span.start as int, span.end as int));
        let ghost before = token_views(tokens@);
        let lower = lowercase(&slice_of(&chars, span.start, span.end));
        if is_short_token(&lower) {
            let token = Token {
                text: from_chars(&lower),
                start: span.start,
                end: span.end,
                position: k,
            };
            tokens.push(token);
            assert(token_views(tokens@) =~= before.push(token_of(text@, k as int)));
        }
        k += 1;
    }
    tokens
}


/// The positions of the tokens rise along the stream, and every token is
/// the lower-case form of the word at its position.
pub proof fn lemma_positions_rise(text: Seq<char>, n: int)
    requires
        0 <= n <= words(text, Alphabet::Code).len(),
    ensures
        forall|i: int|
            0 <= i < tokens_upto(text, n).len() ==> 0 <= (#[trigger] tokens_upto(
                text,
                n,
            )[i]).position < n && tokens_upto(text, n)[i] == token_of(
                text,
                tokens_upto(text, n)[i].position,
            ),
        forall|i: int, j: int|
            0 <= i < j < tokens_upto(text, n).len() ==> (#[trigger] tokens_upto(
                text,
                n,
            )[i]).position < (#[trigger] tokens_upto(text, n)[j]).position,
    decreases n,
{
    if n > 0 {
        lemma_positions_rise(text, n - 1);
        let before = tokens_upto(text, n - 1);
        let now = tokens_upto(text, n);
        assert forall|i: int| 0 <= i < now.len() implies 0 <= (#[trigger] now[i]).position < n
            && now[i] == token_of(text, now[i].position) by {
            if i < before.len() {
                assert(now[i] == before[i]);
            }
        }
        assert forall|i: int, j: int| 0 <= i < j < now.len() implies (#[trigger] now[i]).position
            < (#[trigger] now[j]).position by {
            assert(now[i] == before[i]);
            if j < before.len() {
                assert(now[j] == before[j]);
            }
        }
    }
}

/// The texts of the tokens of the first `n` words of a text.
pub open spec fn texts_upto(text: Seq<char>, n: int) -> Seq<Seq<char>> {
    Seq::new(tokens_upto(text, n).len(), |i: int| tokens_upto(text, n)[i].text)
}

/// The texts of the tokens of a text.
pub open spec fn token_texts(text: Seq<char>) -> Seq<Seq<char>> {
    texts_upto(text, words(text, Alphabet::Code).len() as int)
}

proof fn lemma_texts_step(text: Seq<char>, n: int)
    requires
        n > 0,
    ensures
        texts_upto(text, n) == if is_short(token_of(text, n - 1).text) {
            texts_upto(text, n - 1).push(token_of(text, n - 1).text)
        } else {
            texts_upto(text, n - 1)
        },
{
    if is_short(token_of(text, n - 1).text) {
        assert(texts_upto(text, n) =~= texts_upto(text, n - 1).push(token_of(text, n - 1).text));
    } else {
        assert(texts_upto(text, n) =~= texts_upto(text, n - 1));
    }
}

proof fn lemma_texts_of_concatenation(a: Seq<char>, b: Seq<char>, n: int)
    requires
        is_separated(a, b, Alphabet::Code),
        0 <= n <= words(a + b, Alphabet::Code).len(),
    ensures
        texts_upto(a + b, n) == if n <= words(a, Alphabet::Code).len() {
            texts_upto(a, n)
        } else {
            token_texts(a) + texts_upto(b, n - words(a, Alphabet::Code).len())
        },
    decreases n,
{
    let wa = words(a, Alphabet::Code);
    let wb = words(b, Alphabet::Code);
    let all = words(a + b, Alphabet::Code);
    lemma_words_append(a, b, Alphabet::Code);
    lemma_words_ordered(a, Alphabet::Code);
    lemma_words_ordered(b, Alphabet::Code);
    if n == 0 {
        assert(texts_upto(a + b, 0) =~= texts_upto(a, 0));
    } else {
        lemma_texts_of_concatenation(a, b, n - 1);
        lemma_texts_step(a + b, n);
        let k = n - 1;
        if k < wa.len() {
            assert(all[k] == wa[k]);
            assert((a + b).subrange(wa[k].0, wa[k].1) =~= a.subrange(wa[k].0, wa[k].1));
            assert(token_of(a + b, k).text == token_of(a, k).text);
            lemma_texts_step(a, n);
        } else {
            let j = k - wa.len();
            assert(all[k] == shifted(wb, a.len() as int)[j]);
            assert((a + b).subrange(wb[j].0 + a.len(), wb[j].1 + a.len()) =~= b.subrange(
                wb[j].0,
                wb[j].1,
            ));
            assert(token_of(a + b, k).text == token_of(b, j).text);
            lemma_texts_step(b, j + 1);
            if j == 0 {
                assert(texts_upto(b, 0) =~= Seq::<Seq<char>>::empty());
                assert(token_texts(a) + texts_upto(b, 0) =~= token_texts(a));
            }
            if is_short(token_of(b, j).text) {
                assert(token_texts(a) + texts_upto(b, j).push(token_of(b, j).text) =~= (
                token_texts(a) + texts_upto(b, j)).push(token_of(b, j).text));
            }
        }
    }
}

/// The tokens of two texts that do not run into each other are the tokens
/// of the first followed by the tokens of the second.
pub proof fn lemma_tokens_of_concatenation(a: Seq<char>, b: Seq<char>)
    requires
        is_separated(a, b, Alphabet::Code),
    ensures
        token_texts(a + b) == token_texts(a) + token_texts(b),
{
    lemma_words_append(a, b, Alphabet::Code);
    let wa = words(a, Alphabet::Code);
    let wb = words(b, Alphabet::Code);
    lemma_texts_of_concatenation(a, b, (wa.len() + wb.len()) as int);
    if wb.len() == 0 {
        assert(texts_upto(b, 0) =~= Seq::<Seq<char>>::empty());
        assert(token_texts(a) + token_texts(b) =~= token_texts(a));
    }
}

/// A text without a character of the alphabet has no tokens.
pub proof fn lemma_separators_have_no_tokens(text: Seq<char>)
    requires
        forall|i: int| 0 <= i < text.len() ==> !in_alphabet(text[i], Alphabet::Code),
    ensures
        tokens_of(text).len() == 0,
        token_texts(text).len() == 0,
{
    lemma_no_runs(flags_of(text, Alphabet::Code));
}

} // verus!

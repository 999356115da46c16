//! What holds of lines, words and whitespace.

use vstd::prelude::*;

use crate::chars;
use crate::text;

verus! {

/// Whether all of a text is whitespace.
pub open spec fn blank(s: Seq<char>) -> bool {
    forall|i: int| 0 <= i < s.len() ==> chars::white(#[trigger] s[i])
}

/// Whether a text has no whitespace at its ends.
pub open spec fn bare(s: Seq<char>) -> bool {
    s.len() > 0 ==> !chars::white(s[0]) && !chars::white(s.last())
}

/// Whether a text holds no whitespace at all.
pub open spec fn solid(s: Seq<char>) -> bool {
    forall|i: int| 0 <= i < s.len() ==> !chars::white(#[trigger] s[i])
}

/// The usual whitespace is whitespace; letters, digits and punctuation are not.
pub proof fn usual_whitespace(c: char)
    ensures
        c == ' ' || c == '\t' || c == '\n' || c == '\r' || c as u32 == 0x0b || c as u32 == 0x0c
            ==> chars::white(c),
        0x21 <= c as u32 <= 0x7e ==> !chars::white(c),
        c as u32 <= 8 || 0x0e <= c as u32 <= 0x1f || c as u32 == 0x7f ==> !chars::white(c),
        c as u32 == 0x85 || c as u32 == 0xa0 || c as u32 == 0x1680 || c as u32 == 0x2028 || c as u32
            == 0x2029 || c as u32 == 0x202f || c as u32 == 0x205f || c as u32 == 0x3000
            ==> chars::white(c),
        0x2000 <= c as u32 <= 0x200a ==> chars::white(c),
        0x80 <= c as u32 && chars::white(c) ==> c as u32 == 0x85 || c as u32 == 0xa0 || c as u32
            == 0x1680 || 0x2000 <= c as u32 <= 0x200a || c as u32 == 0x2028 || c as u32 == 0x2029
            || c as u32 == 0x202f || c as u32 == 0x205f || c as u32 == 0x3000,
{
}

/// Leading whitespace goes.
proof fn front_goes(pre: Seq<char>, m: Seq<char>)
    requires
        blank(pre),
        m.len() > 0 ==> !chars::white(m[0]),
    ensures
        chars::trim_start(pre + m) == m,
    decreases pre.len(),
{
    let s = pre + m;
    if pre.len() > 0 {
        assert(chars::white(pre[0]));
        assert(s.skip(1) =~= pre.skip(1) + m);
        assert forall|i: int| 0 <= i < pre.skip(1).len() implies chars::white(
            #[trigger] pre.skip(1)[i],
        ) by {
            assert(chars::white(pre[i + 1]));
        }
        front_goes(pre.skip(1), m);
    } else {
        assert(s =~= m);
    }
}

/// Trailing whitespace goes.
proof fn back_goes(m: Seq<char>, post: Seq<char>)
    requires
        blank(post),
        m.len() > 0 ==> !chars::white(m.last()),
    ensures
        chars::trim_end(m + post) == m,
    decreases post.len(),
{
    let s = m + post;
    if post.len() > 0 {
        assert(chars::white(post[post.len() - 1]));
        assert(s.drop_last() =~= m + post.drop_last());
        assert forall|i: int| 0 <= i < post.drop_last().len() implies chars::white(
            #[trigger] post.drop_last()[i],
        ) by {
            assert(chars::white(post[i]));
        }
        back_goes(m, post.drop_last());
    } else {
        assert(s =~= m);
    }
}

/// Trimming takes the whitespace off both ends and nothing else.
pub proof fn trimming_bares(pre: Seq<char>, m: Seq<char>, post: Seq<char>)
    requires
        blank(pre),
        bare(m),
        blank(post),
    ensures
        chars::trimmed(pre + m + post) == m,
{
    if m.len() > 0 {
        assert(pre + m + post =~= pre + (m + post));
        front_goes(pre, m + post);
        back_goes(m, post);
    } else {
        let all = pre + post;
        assert(pre + m + post =~= all);
        assert forall|i: int| 0 <= i < all.len() implies chars::white(#[trigger] all[i]) by {
            if i < pre.len() {
                assert(chars::white(pre[i]));
            } else {
                assert(chars::white(post[i - pre.len()]));
            }
        }
        assert(all + m =~= all);
        front_goes(all, m);
        assert(m =~= Seq::empty());
    }
}

/// Where the first whitespace stands.
proof fn word_ends(word: Seq<char>, rest: Seq<char>)
    requires
        solid(word),
        rest.len() > 0 ==> chars::white(rest[0]),
    ensures
        chars::find_white(word + rest) == word.len(),
    decreases word.len(),
{
    let s = word + rest;
    if word.len() > 0 {
        assert(!chars::white(word[0]));
        assert(s.skip(1) =~= word.skip(1) + rest);
        assert forall|i: int| 0 <= i < word.skip(1).len() implies !chars::white(
            #[trigger] word.skip(1)[i],
        ) by {
            assert(!chars::white(word[i + 1]));
        }
        word_ends(word.skip(1), rest);
    } else {
        assert(s =~= rest);
    }
}

/// A directive is its first word and, bared, what follows it; a word alone has an empty value.
pub proof fn directive_is_word_and_value(
    key: Seq<char>,
    pre: Seq<char>,
    value: Seq<char>,
    post: Seq<char>,
)
    requires
        solid(key),
        pre.len() > 0,
        blank(pre),
        bare(value),
        blank(post),
    ensures
        chars::directive(key + pre + value + post) == (key, value),
        chars::directive(key) == (key, Seq::<char>::empty()),
{
    let rest = pre + value + post;
    let s = key + pre + value + post;
    assert(s =~= key + rest);
    assert(chars::white(pre[0]));
    word_ends(key, rest);
    let more = pre.skip(1);
    assert forall|i: int| 0 <= i < more.len() implies chars::white(#[trigger] more[i]) by {
        assert(chars::white(pre[i + 1]));
    }
    assert(s.skip(key.len() as int + 1) =~= more + value + post);
    assert(s.take(key.len() as int) =~= key);
    trimming_bares(more, value, post);
    word_ends(key, Seq::empty());
    assert(key + Seq::<char>::empty() =~= key);
}

/// Two words with whitespace between them, and around them, are found; what follows does not
/// matter.
pub proof fn two_words_are_found(
    pre: Seq<char>,
    first: Seq<char>,
    between: Seq<char>,
    second: Seq<char>,
    rest: Seq<char>,
)
    requires
        blank(pre),
        solid(first),
        first.len() > 0,
        blank(between),
        between.len() > 0,
        solid(second),
        second.len() > 0,
        rest.len() > 0 ==> chars::white(rest[0]),
    ensures
        chars::two_words(pre + first + between + second + rest) == (first, second),
        chars::two_words(pre + first) == (first, Seq::<char>::empty()),
{
    let tail = between + second + rest;
    let s = pre + first + between + second + rest;
    assert(!chars::white(first[0]));
    assert(!chars::white(second[0]));
    assert(chars::white(between[0]));
    assert(s =~= pre + (first + tail));
    front_goes(pre, first + tail);
    word_ends(first, tail);
    let t = first + tail;
    assert(t.take(first.len() as int) =~= first);
    assert(t.skip(first.len() as int) =~= tail);
    assert(tail =~= between + (second + rest));
    front_goes(between, second + rest);
    word_ends(second, rest);
    let u = second + rest;
    assert(u.take(second.len() as int) =~= second);
    // a word alone
    front_goes(pre, first);
    word_ends(first, Seq::empty());
    assert(first + Seq::<char>::empty() =~= first);
    assert(first.take(first.len() as int) =~= first);
    assert(first.skip(first.len() as int) =~= Seq::<char>::empty());
}

/// A text without a newline is its only line.
pub proof fn text_without_newline_is_one_line(s: Seq<char>)
    requires
        forall|i: int| 0 <= i < s.len() ==> #[trigger] s[i] != '\n',
    ensures
        chars::lines(s) == seq![s],
    decreases s.len(),
{
    if s.len() > 0 {
        let before = s.drop_last();
        assert forall|i: int| 0 <= i < before.len() implies #[trigger] before[i] != '\n' by {
            assert(s[i] != '\n');
        }
        text_without_newline_is_one_line(before);
        assert(s[s.len() - 1] != '\n');
        assert(seq![before].drop_last() =~= Seq::<Seq<char>>::empty());
        assert(before.push(s.last()) =~= s);
        assert(chars::lines(s) =~= seq![s]);
    }
}

/// ASCII text is read as its bytes, and what is not ASCII as no ASCII byte.
pub proof fn ascii_is_read_as_it_is(s: Seq<char>, i: int)
    requires
        0 <= i < s.len(),
    ensures
        chars::ascii(s).len() == s.len(),
        (s[i] as u32) < 128 ==> chars::ascii(s)[i] == s[i] as u32,
        (s[i] as u32) >= 128 ==> chars::ascii(s)[i] >= 128,
        vstd::utf8::is_ascii_chars(s) ==> chars::ascii(s) == text::utf8(s),
{
    if vstd::utf8::is_ascii_chars(s) {
        vstd::utf8::is_ascii_chars_encode_utf8(s);
        assert forall|j: int| 0 <= j < s.len() implies #[trigger] chars::ascii(s)[j] == text::utf8(
            s,
        )[j] by {
            assert('\0' <= s[j] <= '\u{7f}');
        }
        assert(chars::ascii(s) =~= text::utf8(s));
    }
}

} // verus!

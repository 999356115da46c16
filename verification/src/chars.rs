//! Text as characters: whitespace, trimming, words, lines.

use vstd::prelude::*;

verus! {

/// Whether a character has the Unicode `White_Space` property.
pub open spec fn white(c: char) -> bool {
    let n = c as u32;
    0x09 <= n <= 0x0d || n == 0x20 || n == 0x85 || n == 0xa0 || n == 0x1680 || 0x2000 <= n <= 0x200a
        || n == 0x2028 || n == 0x2029 || n == 0x202f || n == 0x205f || n == 0x3000
}

/// Whether a character is whitespace.
pub fn is_white(c: char) -> (r: bool)
    ensures
        r == white(c),
{
    let n: u32 = c as u32;
    (0x09 <= n && n <= 0x0d) || n == 0x20 || n == 0x85 || n == 0xa0 || n == 0x1680 || (0x2000 <= n
        && n <= 0x200a) || n == 0x2028 || n == 0x2029 || n == 0x202f || n == 0x205f || n == 0x3000
}

/// The text without leading whitespace.
pub open spec fn trim_start(s: Seq<char>) -> Seq<char>
    decreases s.len(),
{
    if s.len() > 0 && white(s[0]) {
        trim_start(s.skip(1))
    } else {
        s
    }
}

/// The text without trailing whitespace.
pub open spec fn trim_end(s: Seq<char>) -> Seq<char>
    decreases s.len(),
{
    if s.len() > 0 && white(s.last()) {
        trim_end(s.drop_last())
    } else {
        s
    }
}

/// The text without whitespace at either end.
pub open spec fn trimmed(s: Seq<char>) -> Seq<char> {
    trim_end(trim_start(s))
}

/// Where the first whitespace stands; the length where there is none.
pub open spec fn find_white(s: Seq<char>) -> int
    decreases s.len(),
{
    if s.len() == 0 || white(s[0]) {
        0
    } else {
        1 + find_white(s.skip(1))
    }
}

/// What stands before the first whitespace and, trimmed, after it.
pub open spec fn directive(s: Seq<char>) -> (Seq<char>, Seq<char>) {
    let i = find_white(s);
    if i < s.len() {
        (s.take(i), trimmed(s.skip(i + 1)))
    } else {
        (s, Seq::empty())
    }
}

/// The lines of a text.
pub open spec fn lines(s: Seq<char>) -> Seq<Seq<char>>
    decreases s.len(),
{
    if s.len() == 0 {
        seq![s]
    } else {
        let before = lines(s.drop_last());
        if s.last() == '\n' {
            before.push(Seq::empty())
        } else {
            before.drop_last().push(before.last().push(s.last()))
        }
    }
}

/// A text has a line, if only an empty one.
proof fn some_line(s: Seq<char>)
    ensures
        lines(s).len() > 0,
    decreases s.len(),
{
    if s.len() > 0 {
        some_line(s.drop_last());
    }
}

/// Two texts joined by a newline have the lines of the one and then those of the other.
pub proof fn lines_join(a: Seq<char>, b: Seq<char>)
    ensures
        lines(a.push('\n') + b) == lines(a) + lines(b),
    decreases b.len(),
{
    let s = a.push('\n') + b;
    if b.len() == 0 {
        assert(s.drop_last() =~= a);
        assert(b =~= Seq::empty());
        assert(lines(s) =~= lines(a) + lines(b));
    } else {
        lines_join(a, b.drop_last());
        some_line(b.drop_last());
        assert(s.drop_last() =~= a.push('\n') + b.drop_last());
        assert(s.last() == b.last());
        let before = lines(b.drop_last());
        assert((lines(a) + before).drop_last() =~= lines(a) + before.drop_last());
        assert((lines(a) + before).last() == before.last());
        assert(lines(s) =~= lines(a) + lines(b));
    }
}

/// The characters of a text.
pub fn chars_of(s: &str) -> (r: Vec<char>)
    ensures
        r@ == s@,
{
    let mut v: Vec<char> = Vec::new();
    for c in it: s.chars()
        invariant
            v@ == it.seq().take(it.index() as int),
            it.seq() == s@,
    {
        v.push(c);
    }
    v
}

/// Lines as their characters.
pub open spec fn lines_view(v: Seq<Vec<char>>) -> Seq<Seq<char>> {
    v.map_values(|l: Vec<char>| l@)
}

/// Split a text at its newlines.
pub fn split_lines(s: &[char]) -> (r: Vec<Vec<char>>)
    ensures
        lines_view(r@) == lines(s@),
{
    let mut done: Vec<Vec<char>> = Vec::new();
    let mut line: Vec<char> = Vec::new();
    let mut i: usize = 0;
    proof {
        assert(s@.take(0) =~= Seq::empty());
        assert(lines_view(done@).push(line@) =~= seq![Seq::<char>::empty()]);
    }
    while i < s.len()
        invariant
            i <= s@.len(),
            lines(s@.take(i as int)) == lines_view(done@).push(line@),
        decreases s@.len() - i,
    {
        let c: char = s[i];
        let ghost before = lines_view(done@);
        proof {
            assert(s@.take(i + 1).drop_last() =~= s@.take(i as int));
            assert(before.push(line@).drop_last() =~= before);
        }
        if c == '\n' {
            done.push(line);
            line = Vec::new();
            assert(lines_view(done@) =~= before.push(lines(s@.take(i as int)).last()));
        } else {
            line.push(c);
        }
        assert(lines(s@.take(i + 1)) =~= lines_view(done@).push(line@));
        i = i + 1;
    }
    assert(s@.take(s@.len() as int) =~= s@);
    let ghost before = lines_view(done@);
    let ghost last = line@;
    done.push(line);
    assert(lines_view(done@) =~= before.push(last));
    done
}

/// The first word of a text, and what follows it.
pub open spec fn first_word(s: Seq<char>) -> (Seq<char>, Seq<char>) {
    let t = trim_start(s);
    (t.take(find_white(t)), t.skip(find_white(t)))
}

/// The first two words of a text; empty where there are fewer.
pub open spec fn two_words(s: Seq<char>) -> (Seq<char>, Seq<char>) {
    (first_word(s).0, first_word(first_word(s).1).0)
}

/// Drop leading whitespace.
fn trim_front(s: &[char]) -> (r: &[char])
    ensures
        r@ == trim_start(s@),
{
    let n: usize = s.len();
    let mut from: usize = 0;
    assert(s@.skip(0) =~= s@);
    while from < n && is_white(s[from])
        invariant
            from <= n,
            n == s@.len(),
            trim_start(s@) == trim_start(s@.skip(from as int)),
        decreases n - from,
    {
        assert(s@.skip(from as int).skip(1) =~= s@.skip(from + 1));
        from = from + 1;
    }
    let r = &s[from..n];
    assert(r@ =~= s@.skip(from as int));
    r
}

/// The first two words.
pub fn split_two_words(s: &[char]) -> (r: (&[char], &[char]))
    ensures
        (r.0@, r.1@) == two_words(s@),
{
    let t = trim_front(s);
    let i: usize = position_white(t);
    let n: usize = t.len();
    let first = &t[0..i];
    let rest = &t[i..n];
    assert(first@ =~= t@.take(i as int));
    assert(rest@ =~= t@.skip(i as int));
    let u = trim_front(rest);
    let j: usize = position_white(u);
    let second = &u[0..j];
    assert(second@ =~= u@.take(j as int));
    (first, second)
}

/// Drop whitespace at either end.
pub fn trim(s: &[char]) -> (r: &[char])
    ensures
        r@ == trimmed(s@),
{
    let t = trim_front(s);
    let n: usize = t.len();
    let mut to: usize = n;
    assert(t@.take(n as int) =~= t@);
    while to > 0 && is_white(t[to - 1])
        invariant
            to <= n,
            n == t@.len(),
            trim_end(t@) == trim_end(t@.take(to as int)),
        decreases to,
    {
        assert(t@.take(to as int).drop_last() =~= t@.take(to - 1));
        to = to - 1;
    }
    let r = &t[0..to];
    assert(r@ =~= t@.take(to as int));
    r
}

/// Where the first whitespace stands.
fn position_white(s: &[char]) -> (r: usize)
    ensures
        r == find_white(s@),
        r <= s@.len(),
{
    let n: usize = s.len();
    let mut i: usize = 0;
    assert(s@.skip(0) =~= s@);
    while i < n && !is_white(s[i])
        invariant
            i <= n,
            n == s@.len(),
            find_white(s@) == i + find_white(s@.skip(i as int)),
        decreases n - i,
    {
        assert(s@.skip(i as int).skip(1) =~= s@.skip(i + 1));
        i = i + 1;
    }
    i
}

/// Split a line into its first word and the trimmed rest.
pub fn split_directive(s: &[char]) -> (r: (&[char], &[char]))
    ensures
        (r.0@, r.1@) == directive(s@),
{
    let i: usize = position_white(s);
    let n: usize = s.len();
    if i < n {
        let key = &s[0..i];
        let rest = &s[i + 1..n];
        assert(key@ =~= s@.take(i as int));
        assert(rest@ =~= s@.skip(i + 1));
        (key, trim(rest))
    } else {
        let rest = &s[n..n];
        assert(rest@ =~= Seq::<char>::empty());
        (s, rest)
    }
}

/// Whether the characters are those of the given text.
pub fn is(a: &[char], s: &str) -> (r: bool)
    ensures
        r == (a@ == s@),
{
    let b = chars_of(s);
    if a.len() != b.len() {
        return false;
    }
    let mut i: usize = 0;
    while i < a.len()
        invariant
            i <= a@.len(),
            b@ == s@,
            a@.len() == b@.len(),
            forall|j: int| 0 <= j < i ==> a@[j] == b@[j],
        decreases a@.len() - i,
    {
        if a[i] != b[i] {
            return false;
        }
        i = i + 1;
    }
    assert(a@ =~= b@);
    true
}

/// Calls `String::push`, which appends one character.
#[verifier::external_body]
fn push_char(s: &mut String, c: char)
    ensures
        final(s)@ == old(s)@.push(c),
{
    s.push(c);
}

/// The characters as a string.
pub fn string_of(a: &[char]) -> (r: String)
    ensures
        r@ == a@,
{
    let mut r = String::new();
    let mut i: usize = 0;
    while i < a.len()
        invariant
            i <= a@.len(),
            r@ == a@.take(i as int),
        decreases a@.len() - i,
    {
        push_char(&mut r, a[i]);
        assert(a@.take(i + 1) =~= a@.take(i as int).push(a@[i as int]));
        i = i + 1;
    }
    assert(a@.take(a@.len() as int) =~= a@);
    r
}

/// ASCII text as bytes; a character outside ASCII becomes a byte that no ASCII text holds.
pub open spec fn ascii(s: Seq<char>) -> Seq<u8> {
    s.map_values(
        |c: char|
            if (c as u32) < 128 {
                (c as u32) as u8
            } else {
                255u8
            },
    )
}

/// ASCII text as bytes.
pub fn ascii_of(a: &[char]) -> (r: Vec<u8>)
    ensures
        r@ == ascii(a@),
{
    let mut r: Vec<u8> = Vec::new();
    let mut i: usize = 0;
    while i < a.len()
        invariant
            i <= a@.len(),
            r@ == ascii(a@.take(i as int)),
        decreases a@.len() - i,
    {
        let c: char = a[i];
        let n: u32 = c as u32;
        assert(a@.take(i + 1) =~= a@.take(i as int).push(c));
        let b: u8 = if n < 128 {
            n as u8
        } else {
            255
        };
        r.push(b);
        assert(r@ =~= ascii(a@.take(i + 1)));
        i = i + 1;
    }
    assert(a@.take(a@.len() as int) =~= a@);
    r
}

} // verus!

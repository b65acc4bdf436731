//! Plain text as sequences of characters: comparing, splitting and trimming.
use vstd::prelude::*;

verus! {

/// The contents of a list of character lists.
pub open spec fn contents(list: Seq<Vec<char>>) -> Seq<Seq<char>> {
    list.map_values(|v: Vec<char>| v@)
}

/// The characters of a string.
pub fn chars_of(s: &str) -> (chars: Vec<char>)
    ensures
        chars@ == s@,
{
    let mut chars: Vec<char> = Vec::new();
    for c in it: s.chars()
        invariant
            it.seq() == s@,
            chars@ == s@.take(it.index() as int),
    {
        assert(s@.take(it.index() as int + 1) == s@.take(it.index() as int).push(c));
        chars.push(c);
    }
    assert(s@.take(s@.len() as int) == s@);
    chars
}

/// `String::push`: the contract claims that it appends one character and changes nothing else.
pub assume_specification[ String::push ](s: &mut String, c: char)
    ensures
        final(s)@ == old(s)@.push(c),
;

/// The string of a character list.
pub fn string_of(chars: &Vec<char>) -> (s: String)
    ensures
        s@ == chars@,
{
    let mut s: String = String::new();
    let mut i: usize = 0;
    while i < chars.len()
        invariant
            i <= chars.len(),
            s@ =~= chars@.take(i as int),
        decreases chars.len() - i,
    {
        s.push(chars[i]);
        i = i + 1;
    }
    s
}

/// Whether two character lists are equal.
pub fn same_chars(a: &Vec<char>, b: &Vec<char>) -> (same: bool)
    ensures
        same == (a@ == b@),
{
    if a.len() != b.len() {
        return false;
    }
    let mut i: usize = 0;
    while i < a.len()
        invariant
            i <= a.len(),
            a.len() == b.len(),
            forall|j: int| 0 <= j < i ==> a[j] == b[j],
        decreases a.len() - i,
    {
        if a[i] != b[i] {
            return false;
        }
        i = i + 1;
    }
    assert(a@ == b@);
    true
}

/// Whether two strings are equal.
pub fn same_str(a: &str, b: &str) -> (same: bool)
    ensures
        same == (a@ == b@),
{
    same_chars(&chars_of(a), &chars_of(b))
}

/// The part of a character list from `lo` up to `hi`.
pub fn part(chars: &Vec<char>, lo: usize, hi: usize) -> (out: Vec<char>)
    requires
        lo <= hi <= chars.len(),
    ensures
        out@ == chars@.subrange(lo as int, hi as int),
{
    let mut out: Vec<char> = Vec::new();
    let mut i: usize = lo;
    while i < hi
        invariant
            lo <= i <= hi <= chars.len(),
            out@ == chars@.subrange(lo as int, i as int),
        decreases hi - i,
    {
        assert(chars@.subrange(lo as int, i + 1) == chars@.subrange(lo as int, i as int).push(
            chars[i as int],
        ));
        out.push(chars[i]);
        i = i + 1;
    }
    out
}

/// `chars` begins with `prefix`.
pub open spec fn begins_with(chars: Seq<char>, prefix: Seq<char>) -> bool {
    prefix.len() <= chars.len() && chars.take(prefix.len() as int) == prefix
}

/// What follows `prefix`, if `chars` begins with it.
pub fn strip_prefix(chars: &Vec<char>, prefix: &str) -> (rest: Option<Vec<char>>)
    ensures
        rest is Some <==> begins_with(chars@, prefix@),
        rest matches Some(r) ==> r@ == chars@.skip(prefix@.len() as int),
{
    let wanted: Vec<char> = chars_of(prefix);
    if wanted.len() > chars.len() {
        return None;
    }
    let head: Vec<char> = part(chars, 0, wanted.len());
    if same_chars(&head, &wanted) {
        let rest: Vec<char> = part(chars, wanted.len(), chars.len());
        assert(rest@ == chars@.skip(prefix@.len() as int));
        Some(rest)
    } else {
        None
    }
}

/// The characters that separate words: those with the Unicode property `White_Space`.
pub open spec fn is_space(c: char) -> bool {
    let n = c as u32;
    ||| 0x09 <= n <= 0x0d
    ||| n == 0x20
    ||| n == 0x85
    ||| n == 0xa0
    ||| n == 0x1680
    ||| 0x2000 <= n <= 0x200a
    ||| n == 0x2028
    ||| n == 0x2029
    ||| n == 0x202f
    ||| n == 0x205f
    ||| n == 0x3000
}

/// Whether a character separates words.
pub fn is_whitespace(c: char) -> (space: bool)
    ensures
        space == is_space(c),
{
    let n: u32 = c as u32;
    (0x09 <= n && n <= 0x0d) || n == 0x20 || n == 0x85 || n == 0xa0 || n == 0x1680 || (0x2000 <= n
        && n <= 0x200a) || n == 0x2028 || n == 0x2029 || n == 0x202f || n == 0x205f || n == 0x3000
}

/// The pieces of `s` between the separators, read from left to right. There is always one more
/// piece than there are separators.
pub open spec fn pieces(s: Seq<char>, separator: char) -> Seq<Seq<char>>
    decreases s.len(),
{
    if s.len() == 0 {
        seq![Seq::empty()]
    } else {
        let before = pieces(s.drop_last(), separator);
        if s.last() == separator {
            before.push(Seq::empty())
        } else {
            before.drop_last().push(before.last().push(s.last()))
        }
    }
}

/// There is always at least one piece.
pub proof fn lemma_pieces_nonempty(s: Seq<char>, separator: char)
    ensures
        pieces(s, separator).len() >= 1,
    decreases s.len(),
{
    if s.len() > 0 {
        lemma_pieces_nonempty(s.drop_last(), separator);
    }
}

/// Splits a character list at every separator.
pub fn split_on(s: &Vec<char>, separator: char) -> (out: Vec<Vec<char>>)
    ensures
        contents(out@) == pieces(s@, separator),
{
    let mut out: Vec<Vec<char>> = Vec::new();
    let mut open: Vec<char> = Vec::new();
    let mut i: usize = 0;
    assert(contents(out@).push(open@) =~= pieces(s@.take(0), separator));
    while i < s.len()
        invariant
            i <= s.len(),
            contents(out@).push(open@) =~= pieces(s@.take(i as int), separator),
        decreases s.len() - i,
    {
        let ghost done = contents(out@).push(open@);
        let c: char = s[i];
        assert(s@.take(i + 1).drop_last() == s@.take(i as int));
        assert(done.drop_last() == contents(out@));
        if c == separator {
            out.push(open);
            assert(contents(out@) =~= done);
            open = Vec::new();
        } else {
            open.push(c);
        }
        i = i + 1;
    }
    assert(s@.take(s@.len() as int) == s@);
    let ghost closed = contents(out@);
    let ghost last = open@;
    out.push(open);
    assert(contents(out@) =~= closed.push(last));
    out
}

/// A line without the carriage return that may end it.
pub open spec fn without_return(line: Seq<char>) -> Seq<char> {
    if line.len() > 0 && line.last() == '\r' {
        line.drop_last()
    } else {
        line
    }
}

/// The lines of a text. A line ends at a line feed or at a carriage return and a line feed; the
/// ending of the last line is optional, and a carriage return elsewhere belongs to its line.
pub open spec fn text_lines(s: Seq<char>) -> Seq<Seq<char>> {
    let all = pieces(s, '\n');
    let ended = all.drop_last().map_values(|line: Seq<char>| without_return(line));
    if all.last().len() == 0 {
        ended
    } else {
        ended.push(all.last())
    }
}

/// Splits a text into its lines.
pub fn lines(s: &Vec<char>) -> (out: Vec<Vec<char>>)
    ensures
        contents(out@) == text_lines(s@),
{
    let all: Vec<Vec<char>> = split_on(s, '\n');
    proof {
        lemma_pieces_nonempty(s@, '\n');
        assert(contents(all@).len() == all@.len());
    }
    let mut out: Vec<Vec<char>> = Vec::new();
    let mut i: usize = 0;
    let count: usize = all.len() - 1;
    let ghost ended = contents(all@).drop_last().map_values(
        |line: Seq<char>| without_return(line),
    );
    while i < count
        invariant
            i <= count,
            count == all.len() - 1,
            ended == contents(all@).drop_last().map_values(|line: Seq<char>| without_return(line)),
            contents(out@) =~= ended.take(i as int),
        decreases count - i,
    {
        let line: &Vec<char> = &all[i];
        let n: usize = line.len();
        let keep: usize = if n > 0 && line[n - 1] == '\r' {
            n - 1
        } else {
            n
        };
        let kept: Vec<char> = part(line, 0, keep);
        proof {
            assert(contents(all@).drop_last()[i as int] == all@[i as int]@);
            assert(kept@ == without_return(all@[i as int]@));
        }
        let ghost before = contents(out@);
        let ghost line = kept@;
        out.push(kept);
        assert(contents(out@) =~= before.push(line));
        assert(ended.take(i + 1) =~= ended.take(i as int).push(ended[i as int]));
        assert(ended[i as int] == line);
        i = i + 1;
    }
    assert(ended.take(count as int) =~= ended);
    let last: &Vec<char> = &all[count];
    assert(contents(all@).last() == last@);
    if last.len() > 0 {
        let kept: Vec<char> = part(last, 0, last.len());
        assert(kept@ == last@);
        out.push(kept);
        assert(contents(out@) =~= ended.push(last@));
    }
    out
}

/// The words of `s`: its longest runs of characters that are not white space.
pub open spec fn words(s: Seq<char>) -> Seq<Seq<char>>
    decreases s.len(),
{
    if s.len() == 0 {
        Seq::empty()
    } else {
        let before = words(s.drop_last());
        if is_space(s.last()) {
            before
        } else if s.len() == 1 || is_space(s[s.len() - 2]) {
            before.push(seq![s.last()])
        } else {
            before.drop_last().push(before.last().push(s.last()))
        }
    }
}

/// Splits a character list at white space.
pub fn split_whitespace(s: &Vec<char>) -> (out: Vec<Vec<char>>)
    ensures
        contents(out@) == words(s@),
{
    let mut out: Vec<Vec<char>> = Vec::new();
    let mut open: Vec<char> = Vec::new();
    let mut i: usize = 0;
    assert(contents(out@) =~= words(s@.take(0)));
    while i < s.len()
        invariant
            i <= s.len(),
            open@.len() > 0 <==> i > 0 && !is_space(s[i - 1]),
            open@.len() > 0 ==> contents(out@).push(open@) =~= words(s@.take(i as int)),
            open@.len() == 0 ==> contents(out@) =~= words(s@.take(i as int)),
        decreases s.len() - i,
    {
        let ghost closed = contents(out@);
        let c: char = s[i];
        assert(s@.take(i + 1).drop_last() == s@.take(i as int));
        assert(closed.push(open@).drop_last() == closed);
        if is_whitespace(c) {
            if open.len() > 0 {
                let ghost word = open@;
                out.push(open);
                assert(contents(out@) =~= closed.push(word));
                open = Vec::new();
            }
        } else {
            let ghost word = open@;
            open.push(c);
            assert(word.len() == 0 ==> open@ =~= seq![c]);
        }
        i = i + 1;
    }
    assert(s@.take(s@.len() as int) == s@);
    if open.len() > 0 {
        let ghost closed = contents(out@);
        let ghost word = open@;
        out.push(open);
        assert(contents(out@) =~= closed.push(word));
    }
    out
}

/// `s` without the white space at its two ends.
pub open spec fn trimmed(s: Seq<char>) -> Seq<char>
    decreases s.len(),
{
    if s.len() > 0 && is_space(s[0]) {
        trimmed(s.drop_first())
    } else if s.len() > 0 && is_space(s.last()) {
        trimmed(s.drop_last())
    } else {
        s
    }
}

/// Removes the white space at the two ends of a character list.
pub fn trim(s: &Vec<char>) -> (out: Vec<char>)
    ensures
        out@ == trimmed(s@),
{
    let mut lo: usize = 0;
    let mut hi: usize = s.len();
    assert(s@.subrange(0, s@.len() as int) == s@);
    while lo < hi && is_whitespace(s[lo])
        invariant
            lo <= hi <= s.len(),
            trimmed(s@.subrange(lo as int, hi as int)) == trimmed(s@),
        decreases hi - lo,
    {
        assert(s@.subrange(lo as int, hi as int).drop_first() == s@.subrange(lo + 1, hi as int));
        lo = lo + 1;
    }
    while lo < hi && is_whitespace(s[hi - 1])
        invariant
            lo <= hi <= s.len(),
            lo < hi ==> !is_space(s[lo as int]),
            trimmed(s@.subrange(lo as int, hi as int)) == trimmed(s@),
        decreases hi - lo,
    {
        assert(s@.subrange(lo as int, hi as int).drop_last() == s@.subrange(lo as int, hi - 1));
        hi = hi - 1;
    }
    part(s, lo, hi)
}

} // verus!

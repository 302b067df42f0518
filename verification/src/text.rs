//! Character-level text operations that the preprocessing passes are built from.
//!
//! Text is modelled as `Seq<char>`; the executable functions work on `Vec<char>`
//! and are specified by the spec functions of the same purpose.

use vstd::prelude::*;

verus! {

/// Whether `c` has the Unicode `White_Space` property.
pub open spec fn is_whitespace(c: char) -> bool {
    let u = c as u32;
    ||| 0x09 <= u <= 0x0D
    ||| u == 0x20
    ||| u == 0x85
    ||| u == 0xA0
    ||| u == 0x1680
    ||| 0x2000 <= u <= 0x200A
    ||| u == 0x2028
    ||| u == 0x2029
    ||| u == 0x202F
    ||| u == 0x205F
    ||| u == 0x3000
}

/// Whether `c` is white space.
pub fn char_is_whitespace(c: char) -> (b: bool)
    ensures
        b == is_whitespace(c),
{
    let u: u32 = c as u32;
    (0x09 <= u && u <= 0x0D) || u == 0x20 || u == 0x85 || u == 0xA0 || u == 0x1680 || (0x2000 <= u
        && u <= 0x200A) || u == 0x2028 || u == 0x2029 || u == 0x202F || u == 0x205F || u == 0x3000
}

/// The class of characters at which a scan comes to rest.
#[derive(Clone, Copy, Debug)]
pub enum Stop {
    /// The given character.
    Char(char),
    /// Any white space.
    Whitespace,
    /// Anything but white space.
    Word,
}

impl Stop {
    /// Whether `c` is of the class.
    pub open spec fn holds(self, c: char) -> bool {
        match self {
            Stop::Char(x) => c == x,
            Stop::Whitespace => is_whitespace(c),
            Stop::Word => !is_whitespace(c),
        }
    }

    /// Whether `c` is of the class.
    pub fn test(self, c: char) -> (b: bool)
        ensures
            b == self.holds(c),
    {
        match self {
            Stop::Char(x) => c == x,
            Stop::Whitespace => char_is_whitespace(c),
            Stop::Word => !char_is_whitespace(c),
        }
    }
}

/// How many characters stand before the first one of `s` in the class `stop`
/// (all of them, where there is none).
pub open spec fn run(s: Seq<char>, stop: Stop) -> nat
    decreases s.len(),
{
    if s.len() == 0 || stop.holds(s[0]) {
        0
    } else {
        1 + run(s.skip(1), stop)
    }
}

/// A run ends within the sequence, at a character of the class if it ends
/// before the end, and holds no character of the class.
pub proof fn lemma_run_bound(s: Seq<char>, stop: Stop)
    ensures
        run(s, stop) <= s.len(),
        run(s, stop) < s.len() ==> stop.holds(s[run(s, stop) as int]),
        forall|k: int| 0 <= k < run(s, stop) ==> !stop.holds(#[trigger] s[k]),
    decreases s.len(),
{
    if s.len() == 0 || stop.holds(s[0]) {
    } else {
        let t = s.skip(1);
        lemma_run_bound(t, stop);
        assert forall|k: int| 0 <= k < run(s, stop) implies !stop.holds(#[trigger] s[k]) by {
            if k > 0 {
                assert(s[k] == t[k - 1]);
            }
        }
    }
}

/// `run` is the one position that no earlier character of the class precedes
/// and at which the sequence ends or a character of the class stands.
pub proof fn lemma_run_is(s: Seq<char>, stop: Stop, n: int)
    requires
        0 <= n <= s.len(),
        forall|k: int| 0 <= k < n ==> !stop.holds(#[trigger] s[k]),
        n == s.len() || stop.holds(s[n]),
    ensures
        run(s, stop) == n,
    decreases s.len(),
{
    if s.len() == 0 || stop.holds(s[0]) {
    } else {
        let t = s.skip(1);
        assert forall|k: int| 0 <= k < n - 1 implies !stop.holds(#[trigger] t[k]) by {
            assert(t[k] == s[k + 1]);
        }
        lemma_run_is(t, stop, n - 1);
    }
}

/// The position from `from` on at which the first character of the class stands.
pub fn scan(v: &Vec<char>, from: usize, stop: Stop) -> (to: usize)
    requires
        from <= v.len(),
    ensures
        from <= to <= v.len(),
        to - from == run(v@.skip(from as int), stop),
{
    let mut to: usize = from;
    while to < v.len() && !stop.test(v[to])
        invariant
            from <= to <= v.len(),
            forall|k: int| from <= k < to ==> !stop.holds(#[trigger] v@[k]),
        decreases v.len() - to,
    {
        to += 1;
    }
    proof {
        let s = v@.skip(from as int);
        assert forall|k: int| 0 <= k < to - from implies !stop.holds(#[trigger] s[k]) by {
            assert(s[k] == v@[k + from]);
        }
        lemma_run_is(s, stop, to - from);
    }
    to
}

/// The characters of `v` from `from` up to, not including, `to`.
pub fn slice(v: &Vec<char>, from: usize, to: usize) -> (r: Vec<char>)
    requires
        from <= to <= v.len(),
    ensures
        r@ == v@.subrange(from as int, to as int),
{
    let mut r: Vec<char> = Vec::new();
    let mut i: usize = from;
    while i < to
        invariant
            from <= i <= to <= v.len(),
            r@ == v@.subrange(from as int, i as int),
        decreases to - i,
    {
        r.push(v[i]);
        i += 1;
    }
    r
}

/// A copy of `v`.
pub fn copy_of(v: &Vec<char>) -> (r: Vec<char>)
    ensures
        r@ == v@,
{
    let r = slice(v, 0, v.len());
    assert(r@ =~= v@);
    r
}

/// Appends `s` to `out`.
pub fn push_all(out: &mut Vec<char>, s: &Vec<char>)
    ensures
        final(out)@ == old(out)@ + s@,
{
    let mut i: usize = 0;
    while i < s.len()
        invariant
            i <= s.len(),
            out@ == old(out)@ + s@.take(i as int),
        decreases s.len() - i,
    {
        out.push(s[i]);
        i += 1;
    }
    assert(s@.take(s.len() as int) == s@);
}

/// Whether `a` and `b` hold the same characters.
pub fn same(a: &Vec<char>, b: &Vec<char>) -> (r: bool)
    ensures
        r == (a@ == b@),
{
    if a.len() != b.len() {
        return false;
    }
    let mut i: usize = 0;
    while i < a.len()
        invariant
            i <= a.len(),
            a.len() == b.len(),
            forall|k: int| 0 <= k < i ==> a@[k] == b@[k],
        decreases a.len() - i,
    {
        if a[i] != b[i] {
            return false;
        }
        i += 1;
    }
    assert(a@ =~= b@);
    true
}

/// The characters of a string.
pub fn chars_of(s: &str) -> (v: Vec<char>)
    ensures
        v@ == s@,
{
    let mut v: Vec<char> = Vec::new();
    for c in it: s.chars()
        invariant
            v@ == it.seq().take(it.index() as int),
            it.seq() == s@,
    {
        v.push(c);
    }
    v
}

/// `String::push`: the string grows by the one character.
#[verifier::external_body]
fn push_char(s: &mut String, c: char)
    ensures
        final(s)@ == old(s)@.push(c),
{
    s.push(c)
}

/// The string that holds the characters of `v`.
pub fn string_of(v: &Vec<char>) -> (s: String)
    ensures
        s@ == v@,
{
    let mut s = String::new();
    let mut i: usize = 0;
    while i < v.len()
        invariant
            i <= v.len(),
            s@ == v@.take(i as int),
        decreases v.len() - i,
    {
        push_char(&mut s, v[i]);
        i += 1;
    }
    assert(v@.take(v.len() as int) == v@);
    s
}

/// `s` without its leading white space.
pub open spec fn trim_start(s: Seq<char>) -> Seq<char> {
    s.skip(run(s, Stop::Word) as int)
}

/// `s` without its trailing white space.
pub open spec fn trim_end(s: Seq<char>) -> Seq<char>
    decreases s.len(),
{
    if s.len() > 0 && is_whitespace(s.last()) {
        trim_end(s.drop_last())
    } else {
        s
    }
}

/// `s` without the white space on either side.
pub open spec fn trim(s: Seq<char>) -> Seq<char> {
    trim_end(trim_start(s))
}

/// `v` without the white space on either side.
pub fn trimmed(v: &Vec<char>) -> (r: Vec<char>)
    ensures
        r@ == trim(v@),
{
    let start = scan(v, 0, Stop::Word);
    let mut end: usize = v.len();
    assert(v@.skip(0) == v@);
    assert(v@.subrange(start as int, end as int) == v@.skip(start as int));
    while end > start && char_is_whitespace(v[end - 1])
        invariant
            start <= end <= v.len(),
            trim_end(v@.subrange(start as int, end as int)) == trim(v@),
        decreases end,
    {
        proof {
            let s = v@.subrange(start as int, end as int);
            assert(s.last() == v@[end - 1]);
            assert(s.drop_last() == v@.subrange(start as int, end - 1));
        }
        end -= 1;
    }
    proof {
        let s = v@.subrange(start as int, end as int);
        if end > start {
            assert(s.last() == v@[end - 1]);
        }
    }
    slice(v, start, end)
}

/// The first word of `s`: its characters from the first that is no white space
/// up to the next white space. It is empty where `s` holds white space only.
pub open spec fn word(s: Seq<char>) -> Seq<char> {
    let t = trim_start(s);
    t.take(run(t, Stop::Whitespace) as int)
}

/// What follows the first word of `s`.
pub open spec fn after_word(s: Seq<char>) -> Seq<char> {
    let t = trim_start(s);
    t.skip(run(t, Stop::Whitespace) as int)
}

/// The bounds in `v` of the first word at or after `from`.
pub fn next_word(v: &Vec<char>, from: usize) -> (r: (usize, usize))
    requires
        from <= v.len(),
    ensures
        from <= r.0 <= r.1 <= v.len(),
        word(v@.skip(from as int)) == v@.subrange(r.0 as int, r.1 as int),
        after_word(v@.skip(from as int)) == v@.skip(r.1 as int),
{
    let a = scan(v, from, Stop::Word);
    let b = scan(v, a, Stop::Whitespace);
    proof {
        let s = v@.skip(from as int);
        let t = trim_start(s);
        assert(t == v@.skip(a as int));
        assert(t.take(b - a) == v@.subrange(a as int, b as int));
        assert(t.skip(b - a) == v@.skip(b as int));
    }
    (a, b)
}

/// Where `needle` first occurs in `hay`.
pub open spec fn find(hay: Seq<char>, needle: Seq<char>) -> Option<int>
    decreases hay.len(),
{
    if needle.is_prefix_of(hay) {
        Some(0)
    } else if hay.len() == 0 {
        None
    } else {
        match find(hay.skip(1), needle) {
            Some(i) => Some(i + 1),
            None => None,
        }
    }
}

/// Where `needle` is found, it stands.
pub proof fn lemma_find_bound(hay: Seq<char>, needle: Seq<char>)
    ensures
        find(hay, needle) matches Some(i) ==> 0 <= i && i + needle.len() <= hay.len()
            && hay.subrange(i, i + needle.len()) == needle,
    decreases hay.len(),
{
    if needle.is_prefix_of(hay) {
    } else if hay.len() == 0 {
    } else {
        lemma_find_bound(hay.skip(1), needle);
        match find(hay.skip(1), needle) {
            Some(i) => {
                assert(hay.skip(1).subrange(i, i + needle.len()) == hay.subrange(
                    i + 1,
                    i + 1 + needle.len(),
                ));
            },
            None => {},
        }
    }
}

/// Whether `needle` stands in `hay` at position `at`.
pub fn occurs_at(hay: &Vec<char>, at: usize, needle: &Vec<char>) -> (r: bool)
    requires
        at <= hay.len(),
    ensures
        r == needle@.is_prefix_of(hay@.skip(at as int)),
{
    if needle.len() > hay.len() - at {
        return false;
    }
    let mut i: usize = 0;
    while i < needle.len()
        invariant
            i <= needle.len(),
            at + needle.len() <= hay.len(),
            forall|k: int| 0 <= k < i ==> needle@[k] == hay@[at + k],
        decreases needle.len() - i,
    {
        if needle[i] != hay[at + i] {
            proof {
                let t = hay@.skip(at as int);
                if needle@.is_prefix_of(t) {
                    assert(t.subrange(0, needle@.len() as int)[i as int] == needle@[i as int]);
                }
            }
            return false;
        }
        i += 1;
    }
    proof {
        let t = hay@.skip(at as int);
        assert(t.subrange(0, needle@.len() as int) =~= needle@);
    }
    true
}

/// The position at or after `from` at which `needle` first occurs in `hay`.
pub fn find_from(hay: &Vec<char>, from: usize, needle: &Vec<char>) -> (r: Option<usize>)
    requires
        from <= hay.len(),
    ensures
        match r {
            Some(p) => from <= p && p + needle.len() <= hay.len() && find(
                hay@.skip(from as int),
                needle@,
            ) == Some(p - from),
            None => find(hay@.skip(from as int), needle@) is None,
        },
{
    let mut p: usize = from;
    loop
        invariant
            from <= p <= hay.len(),
            match find(hay@.skip(p as int), needle@) {
                Some(i) => find(hay@.skip(from as int), needle@) == Some(i + p - from),
                None => find(hay@.skip(from as int), needle@) is None,
            },
        decreases hay.len() - p,
    {
        if occurs_at(hay, p, needle) {
            proof {
                lemma_find_bound(hay@.skip(p as int), needle@);
            }
            return Some(p);
        }
        if p == hay.len() {
            return None;
        }
        assert(hay@.skip(p as int).skip(1) == hay@.skip(p + 1));
        p += 1;
    }
}

/// `hay` with `to` put before each of its characters and after the last.
pub open spec fn interleave(hay: Seq<char>, to: Seq<char>) -> Seq<char>
    decreases hay.len(),
{
    if hay.len() == 0 {
        to
    } else {
        to + seq![hay[0]] + interleave(hay.skip(1), to)
    }
}

/// `hay` with each occurrence of `from` replaced by `to`. Occurrences are found
/// from the left and do not overlap; an empty `from` occurs before each
/// character and at the end.
pub open spec fn replace(hay: Seq<char>, from: Seq<char>, to: Seq<char>) -> Seq<char>
    decreases hay.len(),
{
    if from.len() == 0 {
        interleave(hay, to)
    } else if hay.len() == 0 {
        hay
    } else if from.is_prefix_of(hay) {
        to + replace(hay.skip(from.len() as int), from, to)
    } else {
        seq![hay[0]] + replace(hay.skip(1), from, to)
    }
}

/// `hay` with each occurrence of `from` replaced by `to`.
pub fn replaced(hay: &Vec<char>, from: &Vec<char>, to: &Vec<char>) -> (r: Vec<char>)
    ensures
        r@ == replace(hay@, from@, to@),
{
    let mut r: Vec<char> = Vec::new();
    let mut i: usize = 0;
    assert(hay@.skip(0) == hay@);
    if from.len() == 0 {
        while i < hay.len()
            invariant
                i <= hay.len(),
                r@ + interleave(hay@.skip(i as int), to@) == interleave(hay@, to@),
            decreases hay.len() - i,
        {
            assert(hay@.skip(i as int).skip(1) == hay@.skip(i + 1));
            push_all(&mut r, to);
            r.push(hay[i]);
            i += 1;
        }
        push_all(&mut r, to);
        return r;
    }
    while i < hay.len()
        invariant
            i <= hay.len(),
            from@.len() > 0,
            r@ + replace(hay@.skip(i as int), from@, to@) == replace(hay@, from@, to@),
        decreases hay.len() - i,
    {
        if occurs_at(hay, i, from) {
            assert(hay@.skip(i as int).skip(from@.len() as int) == hay@.skip(i + from@.len()));
            push_all(&mut r, to);
            i += from.len();
        } else {
            assert(hay@.skip(i as int).skip(1) == hay@.skip(i + 1));
            r.push(hay[i]);
            i += 1;
        }
    }
    r
}

/// The character of the decimal digit `d`.
pub open spec fn digit(d: nat) -> char {
    if d == 0 {
        '0'
    } else if d == 1 {
        '1'
    } else if d == 2 {
        '2'
    } else if d == 3 {
        '3'
    } else if d == 4 {
        '4'
    } else if d == 5 {
        '5'
    } else if d == 6 {
        '6'
    } else if d == 7 {
        '7'
    } else if d == 8 {
        '8'
    } else {
        '9'
    }
}

/// `n` written in decimal, without leading zeros.
pub open spec fn decimal(n: nat) -> Seq<char>
    decreases n,
{
    if n < 10 {
        seq![digit(n)]
    } else {
        decimal(n / 10).push(digit(n % 10))
    }
}

fn digit_char(d: u32) -> (c: char)
    requires
        d < 10,
    ensures
        c == digit(d as nat),
{
    if d == 0 {
        '0'
    } else if d == 1 {
        '1'
    } else if d == 2 {
        '2'
    } else if d == 3 {
        '3'
    } else if d == 4 {
        '4'
    } else if d == 5 {
        '5'
    } else if d == 6 {
        '6'
    } else if d == 7 {
        '7'
    } else if d == 8 {
        '8'
    } else {
        '9'
    }
}

/// Appends `n` in decimal to `out`.
pub fn push_decimal(out: &mut Vec<char>, n: u32)
    ensures
        final(out)@ == old(out)@ + decimal(n as nat),
    decreases n,
{
    if n >= 10 {
        push_decimal(out, n / 10);
    }
    out.push(digit_char(n % 10));
}

/// `s` without one carriage return at its end.
pub open spec fn strip_cr(s: Seq<char>) -> Seq<char> {
    if s.len() > 0 && s.last() == '\r' {
        s.drop_last()
    } else {
        s
    }
}

/// The lines of `s`. A line ends at a line feed, which is not part of it, nor is
/// one carriage return before that line feed. What follows the last line feed
/// is a line of its own unless it is empty.
pub open spec fn lines(s: Seq<char>) -> Seq<Seq<char>>
    decreases s.len(),
{
    if s.len() == 0 {
        Seq::empty()
    } else {
        let n = run(s, Stop::Char('\n')) as int;
        if n < s.len() {
            seq![strip_cr(s.take(n))] + lines(s.skip(n + 1))
        } else {
            seq![s]
        }
    }
}

/// The texts of the lines.
pub open spec fn views(ls: Seq<Vec<char>>) -> Seq<Seq<char>> {
    ls.map_values(|l: Vec<char>| l@)
}

/// The lines of `text`.
pub fn split_lines(text: &Vec<char>) -> (ls: Vec<Vec<char>>)
    ensures
        views(ls@) == lines(text@),
{
    let mut ls: Vec<Vec<char>> = Vec::new();
    let mut pos: usize = 0;
    assert(text@.skip(0) == text@);
    while pos < text.len()
        invariant
            pos <= text.len(),
            views(ls@) + lines(text@.skip(pos as int)) == lines(text@),
        decreases text.len() - pos,
    {
        let end = scan(text, pos, Stop::Char('\n'));
        let ghost rest = text@.skip(pos as int);
        let ghost before = views(ls@);
        if end < text.len() {
            let stop = if end > pos && text[end - 1] == '\r' {
                end - 1
            } else {
                end
            };
            let line = slice(text, pos, stop);
            proof {
                let raw = rest.take(end - pos);
                assert(raw == text@.subrange(pos as int, end as int));
                if end > pos {
                    assert(raw.last() == text@[end - 1]);
                }
                assert(strip_cr(raw) == line@);
                assert(rest.skip(end - pos + 1) == text@.skip(end + 1));
            }
            ls.push(line);
            proof {
                assert(views(ls@) == before + seq![line@]);
            }
            pos = end + 1;
        } else {
            let line = slice(text, pos, end);
            proof {
                assert(line@ == rest);
                assert(lines(rest) == seq![rest]);
            }
            ls.push(line);
            proof {
                assert(views(ls@) == before + seq![line@]);
                assert(lines(text@.skip(end as int)) == Seq::<Seq<char>>::empty());
            }
            pos = end;
        }
    }
    ls
}

/// The first word of `v` and what follows it.
pub fn split_word(v: &Vec<char>) -> (r: (Vec<char>, Vec<char>))
    ensures
        r.0@ == word(v@),
        r.1@ == after_word(v@),
{
    assert(v@.skip(0) == v@);
    let (a, b) = next_word(v, 0);
    assert(v@.skip(b as int) == v@.subrange(b as int, v@.len() as int));
    (slice(v, a, b), slice(v, b, v.len()))
}

/// The operation and the arguments of a directive line: a line whose first
/// character after leading white space is `#`, followed by at least one word.
/// That word is the operation, and what follows it are the arguments.
pub open spec fn directive(line: Seq<char>) -> Option<(Seq<char>, Seq<char>)> {
    let t = trim(line);
    if t.len() > 0 && t[0] == '#' && word(t.skip(1)).len() > 0 {
        Some((word(t.skip(1)), after_word(t.skip(1))))
    } else {
        None
    }
}

/// Reads a line as a directive.
pub fn parse_directive(line: &Vec<char>) -> (r: Option<(Vec<char>, Vec<char>)>)
    ensures
        match r {
            Some((op, args)) => directive(line@) == Some((op@, args@)),
            None => directive(line@) is None,
        },
{
    let t = trimmed(line);
    if t.len() > 0 && t[0] == '#' {
        let (a, b) = next_word(&t, 1);
        if b > a {
            assert(t@.skip(b as int) == t@.subrange(b as int, t@.len() as int));
            return Some((slice(&t, a, b), slice(&t, b, t.len())));
        }
    }
    None
}

} // verus!

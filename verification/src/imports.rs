//! Expansion of `#import` and `#include` lines.
//!
//! A source text is read line by line. A line that names another source is
//! replaced by that source, expanded in the same way and set between two marker
//! comments; a source that cannot be had leaves one marker comment. All other
//! lines pass through, each ended by a line feed.

use crate::text::{
    chars_of, directive, lemma_run_bound, lemma_run_is, lines, parse_directive, push_all, run,
    same, slice, split_lines, split_word, string_of, strip_cr, trim, trimmed, views, word, Stop,
};
use vstd::prelude::*;

verus! {

/// What a lookup answers, as a function from the name asked for.
pub type Sources = spec_fn(Seq<char>) -> Option<Seq<char>>;

/// The nesting of imports beyond which a source is expanded to nothing.
pub const MAX_RECURSION: u32 = 100;

/// `s` without `c` at its beginning, if it begins with `c`.
pub open spec fn strip_prefix(s: Seq<char>, c: char) -> Seq<char> {
    if s.len() > 0 && s[0] == c {
        s.skip(1)
    } else {
        s
    }
}

/// `s` without `c` at its end, if it ends with `c`.
pub open spec fn strip_suffix(s: Seq<char>, c: char) -> Seq<char> {
    if s.len() > 0 && s.last() == c {
        s.drop_last()
    } else {
        s
    }
}

/// The name that an import asks for: the word after the operation, without one
/// pair of double quotes and without one pair of angle brackets around it.
pub open spec fn import_name(token: Seq<char>) -> Seq<char> {
    strip_suffix(strip_prefix(strip_suffix(strip_prefix(token, '"'), '"'), '<'), '>')
}

/// Whether the line is an import, and if so the name it asks for, where it
/// gives one.
pub open spec fn import_of(line: Seq<char>) -> Option<Option<Seq<char>>> {
    match directive(line) {
        Some((op, args)) => if op == "import"@ || op == "include"@ {
            if word(args).len() > 0 {
                Some(Some(import_name(word(args))))
            } else {
                Some(None)
            }
        } else {
            None
        },
        None => None,
    }
}

/// The comment that opens an inserted source.
pub open spec fn begin_marker(directive: Seq<char>, name: Seq<char>) -> Seq<char> {
    "// "@ + directive + " // BEGIN #import '"@ + name + "'"@ + seq!['\n']
}

/// The comment that closes an inserted source.
pub open spec fn end_marker(name: Seq<char>) -> Seq<char> {
    "// END #import '"@ + name + "'"@ + seq!['\n']
}

/// The comment that stands for an import whose source could not be had.
pub open spec fn error_marker(directive: Seq<char>) -> Seq<char> {
    "// "@ + directive + " // ERROR: Preprocessor could not include file, skipped"@ + seq!['\n']
}

/// The expansion of a source text that stands `depth` imports deep.
pub open spec fn expand(src: Seq<char>, sources: Option<Sources>, depth: nat, max_depth: nat) -> Seq<
    char,
>
    decreases max_depth + 1 - depth, 2int, 0nat,
{
    if depth > max_depth {
        Seq::empty()
    } else {
        expand_lines(lines(src), sources, depth, max_depth)
    }
}

/// The expansions of the lines, one after the other.
pub open spec fn expand_lines(
    ls: Seq<Seq<char>>,
    sources: Option<Sources>,
    depth: nat,
    max_depth: nat,
) -> Seq<char>
    decreases max_depth + 1 - depth, 1int, ls.len(),
{
    if depth > max_depth || ls.len() == 0 {
        Seq::empty()
    } else {
        expand_lines(ls.drop_last(), sources, depth, max_depth) + expand_line(
            ls.last(),
            sources,
            depth,
            max_depth,
        )
    }
}

/// The expansion of one line.
pub open spec fn expand_line(line: Seq<char>, sources: Option<Sources>, depth: nat, max_depth: nat) -> Seq<
    char,
>
    decreases max_depth + 1 - depth, 0int, 0nat,
{
    if depth > max_depth {
        Seq::empty()
    } else {
        match import_of(line) {
            None => line.push('\n'),
            Some(target) => match (sources, target) {
                (Some(f), Some(name)) => match f(name) {
                    Some(text) => begin_marker(trim(line), name) + expand(
                        text,
                        sources,
                        depth + 1,
                        max_depth,
                    ) + end_marker(name),
                    None => error_marker(trim(line)),
                },
                _ => error_marker(trim(line)),
            },
        }
    }
}

/// The text of what a lookup returns.
pub open spec fn view_of(r: Option<String>) -> Option<Seq<char>> {
    match r {
        Some(s) => Some(s@),
        None => None,
    }
}

/// Whether `sources` describes the lookup: none for none, and otherwise a
/// function that gives, for every name, what any call of the lookup with that
/// name returns.
pub open spec fn describes<F: Fn(String) -> Option<String>>(
    sources: Option<Sources>,
    lookup: Option<F>,
) -> bool {
    match (sources, lookup) {
        (None, None) => true,
        (Some(m), Some(f)) => forall|name: String, r: Option<String>| #[trigger]
            call_ensures(f, (name,), r) ==> view_of(r) == m(name@),
        _ => false,
    }
}

fn strip_name(token: &Vec<char>) -> (name: Vec<char>)
    ensures
        name@ == import_name(token@),
{
    let mut a: usize = 0;
    let mut b: usize = token.len();
    assert(token@.subrange(0, token@.len() as int) == token@);
    if a < b && token[a] == '"' {
        a += 1;
    }
    let ghost s1 = token@.subrange(a as int, b as int);
    assert(s1 == strip_prefix(token@, '"'));
    if a < b && token[b - 1] == '"' {
        b -= 1;
    }
    let ghost s2 = token@.subrange(a as int, b as int);
    assert(s2 == strip_suffix(s1, '"'));
    if a < b && token[a] == '<' {
        a += 1;
    }
    let ghost s3 = token@.subrange(a as int, b as int);
    assert(s3 == strip_prefix(s2, '<'));
    if a < b && token[b - 1] == '>' {
        b -= 1;
    }
    assert(token@.subrange(a as int, b as int) == strip_suffix(s3, '>'));
    slice(token, a, b)
}

/// Reads a line as an import.
fn parse_import(line: &Vec<char>) -> (r: Option<Option<Vec<char>>>)
    ensures
        match r {
            Some(Some(name)) => import_of(line@) == Some(Some(name@)),
            Some(None) => import_of(line@) == Some(None::<Seq<char>>),
            None => import_of(line@) is None,
        },
{
    match parse_directive(line) {
        Some((op, args)) => {
            if same(&op, &chars_of("import")) || same(&op, &chars_of("include")) {
                let (token, _rest) = split_word(&args);
                if token.len() > 0 {
                    Some(Some(strip_name(&token)))
                } else {
                    Some(None)
                }
            } else {
                None
            }
        },
        None => None,
    }
}

fn push_begin_marker(out: &mut Vec<char>, directive: &Vec<char>, name: &Vec<char>)
    ensures
        final(out)@ == old(out)@ + begin_marker(directive@, name@),
{
    let ghost before = out@;
    push_all(out, &chars_of("// "));
    push_all(out, directive);
    push_all(out, &chars_of(" // BEGIN #import '"));
    push_all(out, name);
    push_all(out, &chars_of("'"));
    out.push('\n');
    assert(out@ == before + begin_marker(directive@, name@));
}

fn push_end_marker(out: &mut Vec<char>, name: &Vec<char>)
    ensures
        final(out)@ == old(out)@ + end_marker(name@),
{
    let ghost before = out@;
    push_all(out, &chars_of("// END #import '"));
    push_all(out, name);
    push_all(out, &chars_of("'"));
    out.push('\n');
    assert(out@ == before + end_marker(name@));
}

fn push_error_marker(out: &mut Vec<char>, directive: &Vec<char>)
    ensures
        final(out)@ == old(out)@ + error_marker(directive@),
{
    let ghost before = out@;
    push_all(out, &chars_of("// "));
    push_all(out, directive);
    push_all(out, &chars_of(" // ERROR: Preprocessor could not include file, skipped"));
    out.push('\n');
    assert(out@ == before + error_marker(directive@));
}

/// Expands the characters of a source that stands `depth` imports deep.
fn expand_chars<F: Fn(String) -> Option<String>>(
    src: &Vec<char>,
    lookup: &Option<F>,
    depth: u32,
    max_depth: u32,
) -> (out: Vec<char>)
    requires
        lookup matches Some(f) ==> forall|name: String| call_requires(*f, (name,)),
    ensures
        forall|sources: Option<Sources>| #[trigger]
            describes(sources, *lookup) ==> out@ == expand(
                src@,
                sources,
                depth as nat,
                max_depth as nat,
            ),
        depth > max_depth ==> out@.len() == 0,
        depth <= max_depth && import_free(src@) ==> out@ == join_lines(lines(src@)),
        joins_settled(out@),
    decreases max_depth + 1 - depth,
{
    let mut out: Vec<char> = Vec::new();
    let ghost mut made: Seq<Seq<char>> = Seq::empty();
    proof {
        assert(join_lines(made) == Seq::<char>::empty());
    }
    if depth > max_depth {
        return out;
    }
    let ls = split_lines(src);
    let mut i: usize = 0;
    proof {
        lemma_lines_hold_no_line_feed(src@);
    }
    while i < ls.len()
        invariant
            i <= ls.len(),
            depth <= max_depth,
            views(ls@) == lines(src@),
            lookup matches Some(f) ==> forall|name: String| call_requires(*f, (name,)),
            forall|sources: Option<Sources>| #[trigger]
                describes(sources, *lookup) ==> out@ == expand_lines(
                    views(ls@).take(i as int),
                    sources,
                    depth as nat,
                    max_depth as nat,
                ),
            (forall|k: int| 0 <= k < i ==> import_of(#[trigger] views(ls@)[k]) is None) ==> out@
                == join_lines(views(ls@).take(i as int)),
            forall|k: int, j: int|
                0 <= k < ls.len() && 0 <= j < views(ls@)[k].len() ==> #[trigger] views(
                    ls@,
                )[k][j] != '\n',
            all_settled(made),
            out@ == join_lines(made),
        decreases ls.len() - i,
    {
        let line = &ls[i];
        let ghost before = out@;
        let ghost made_before = made;
        proof {
            assert(line@ == views(ls@)[i as int]);
            assert(unbroken(line@)) by {
                assert forall|j: int| 0 <= j < line@.len() implies #[trigger] line@[j] != '\n' by {
                    assert(views(ls@)[i as int][j] != '\n');
                }
            }
            lemma_parts_unbroken(line@);
            lemma_trim_ignores_cr(line@);
        }
        let ghost done = views(ls@).take(i as int);
        let ghost next = views(ls@).take(i + 1);
        proof {
            assert(next.drop_last() == done);
            assert(next.last() == line@);
        }
        match parse_import(line) {
            None => {
                push_all(&mut out, line);
                out.push('\n');
                assert(out@ == before + line@.push('\n'));
                proof {
                    made = made_before + seq![line@];
                    lemma_join_one(line@);
                    lemma_join_concat(made_before, seq![line@]);
                    lemma_settled_concat(made_before, seq![line@]);
                }
            },
            Some(target) => {
                let directive = trimmed(line);
                match (lookup, target) {
                    (Some(f), Some(name)) => {
                        let answer = f(string_of(&name));
                        match answer {
                            Some(text) => {
                                let inner = if depth < max_depth {
                                    expand_chars(&chars_of(text.as_str()), lookup, depth + 1, max_depth)
                                } else {
                                    Vec::new()
                                };
                                proof {
                                    if depth >= max_depth {
                                        let none = Seq::<Seq<char>>::empty();
                                        assert(all_settled(none) && inner@ == join_lines(none));
                                    }
                                    assert(joins_settled(inner@));
                                }
                                push_begin_marker(&mut out, &directive, &name);
                                push_all(&mut out, &inner);
                                push_end_marker(&mut out, &name);
                                proof {
                                    lemma_markers_settled(directive@, name@);
                                    let within = choose|ls: Seq<Seq<char>>|
                                        all_settled(ls) && inner@ == join_lines(ls);
                                    let first = seq![begin_text(directive@, name@)];
                                    let last = seq![end_text(name@)];
                                    made = made_before + first + within + last;
                                    lemma_join_one(begin_text(directive@, name@));
                                    lemma_join_one(end_text(name@));
                                    lemma_join_concat(made_before, first);
                                    lemma_join_concat(made_before + first, within);
                                    lemma_join_concat(made_before + first + within, last);
                                    lemma_settled_concat(made_before, first);
                                    lemma_settled_concat(made_before + first, within);
                                    lemma_settled_concat(made_before + first + within, last);
                                    assert(out@ == before + begin_marker(directive@, name@)
                                        + inner@ + end_marker(name@));
                                }
                            },
                            None => {
                                push_error_marker(&mut out, &directive);
                                proof {
                                    lemma_markers_settled(directive@, name@);
                                    made = made_before + seq![error_text(directive@)];
                                    lemma_join_one(error_text(directive@));
                                    lemma_join_concat(made_before, seq![error_text(directive@)]);
                                    lemma_settled_concat(
                                        made_before,
                                        seq![error_text(directive@)],
                                    );
                                }
                            },
                        }
                    },
                    _ => {
                        push_error_marker(&mut out, &directive);
                        proof {
                            lemma_markers_settled(directive@, Seq::empty());
                            made = made_before + seq![error_text(directive@)];
                            lemma_join_one(error_text(directive@));
                            lemma_join_concat(made_before, seq![error_text(directive@)]);
                            lemma_settled_concat(made_before, seq![error_text(directive@)]);
                        }
                    },
                }
            },
        }
        proof {
            assert forall|sources: Option<Sources>| #[trigger]
                describes(sources, *lookup) implies out@ == expand_lines(
                next,
                sources,
                depth as nat,
                max_depth as nat,
            ) by {
                assert(before == expand_lines(done, sources, depth as nat, max_depth as nat));
                assert(out@ == before + expand_line(
                    line@,
                    sources,
                    depth as nat,
                    max_depth as nat,
                ));
            }
        }
        i += 1;
    }
    proof {
        assert(views(ls@).take(ls.len() as int) == views(ls@));
    }
    out
}

/// Resolves the `#import` and `#include` lines of `src`, which stands `depth`
/// imports deep, and of every source that it brings in.
///
/// The result is the expansion of `src` under every description of the lookup:
/// it depends on the text and on what the lookup returns, and on nothing else.
/// Whatever the lookup does, a source deeper than the limit gives nothing, a
/// source without imports gives its lines, each ended by a line feed, and no
/// line of the result is an import.
pub fn preprocess_resolve_imports_recursively<F: Fn(String) -> Option<String>>(
    src: &str,
    get_source_of_file_name: &Option<F>,
    depth: u32,
    max_depth: u32,
) -> (out: String)
    requires
        get_source_of_file_name matches Some(f) ==> forall|name: String|
            call_requires(*f, (name,)),
    ensures
        forall|sources: Option<Sources>| #[trigger]
            describes(sources, *get_source_of_file_name) ==> out@ == expand(
                src@,
                sources,
                depth as nat,
                max_depth as nat,
            ),
        depth > max_depth ==> out@.len() == 0,
        depth <= max_depth && import_free(src@) ==> out@ == join_lines(lines(src@)),
        import_free(out@),
{
    let out = expand_chars(&chars_of(src), get_source_of_file_name, depth, max_depth);
    proof {
        lemma_settled_import_free(out@);
    }
    string_of(&out)
}

/// Resolves the `#import` and `#include` lines of `src`, with imports nested
/// up to `MAX_RECURSION` deep.
pub fn preprocess_resolve_imports<F: Fn(String) -> Option<String>>(
    src: &str,
    get_source_of_file_name: &Option<F>,
) -> (out: String)
    requires
        get_source_of_file_name matches Some(f) ==> forall|name: String|
            call_requires(*f, (name,)),
    ensures
        forall|sources: Option<Sources>| #[trigger]
            describes(sources, *get_source_of_file_name) ==> out@ == expand(
                src@,
                sources,
                0,
                MAX_RECURSION as nat,
            ),
        import_free(src@) ==> out@ == join_lines(lines(src@)),
        import_free(out@),
{
    preprocess_resolve_imports_recursively(src, get_source_of_file_name, 0, MAX_RECURSION)
}

/// The lines, each followed by a line feed, one after the other.
pub open spec fn join_lines(ls: Seq<Seq<char>>) -> Seq<char>
    decreases ls.len(),
{
    if ls.len() == 0 {
        Seq::empty()
    } else {
        join_lines(ls.drop_last()) + ls.last().push('\n')
    }
}

/// Whether no line of `src` is an import.
pub open spec fn import_free(src: Seq<char>) -> bool {
    forall|i: int| 0 <= i < lines(src).len() ==> import_of(#[trigger] lines(src)[i]) is None
}

/// Whether no line feed of `src` follows a carriage return.
pub open spec fn bare_line_feeds(src: Seq<char>) -> bool {
    forall|i: int| 0 < i < src.len() && #[trigger] src[i] == '\n' ==> src[i - 1] != '\r'
}

/// Whether every line of `src` ends with a line feed that no carriage return
/// precedes.
pub open spec fn line_terminated(src: Seq<char>) -> bool {
    &&& src.len() > 0 ==> src.last() == '\n'
    &&& bare_line_feeds(src)
}

/// Whether no line of `src` ends with a carriage return.
pub open spec fn no_trailing_cr(src: Seq<char>) -> bool {
    forall|i: int| 0 <= i < lines(src).len() ==> strip_cr(#[trigger] lines(src)[i]) == lines(src)[i]
}

proof fn lemma_join_front(x: Seq<char>, rest: Seq<Seq<char>>)
    ensures
        join_lines(seq![x] + rest) == x.push('\n') + join_lines(rest),
    decreases rest.len(),
{
    let all = seq![x] + rest;
    if rest.len() == 0 {
        assert(all.drop_last() == Seq::<Seq<char>>::empty());
        assert(join_lines(all) == join_lines(all.drop_last()) + all.last().push('\n'));
    } else {
        assert(all.drop_last() == seq![x] + rest.drop_last());
        assert(all.last() == rest.last());
        lemma_join_front(x, rest.drop_last());
    }
}

proof fn lemma_join_of_lines(src: Seq<char>)
    requires
        line_terminated(src),
    ensures
        join_lines(lines(src)) == src,
    decreases src.len(),
{
    if src.len() > 0 {
        let n = run(src, Stop::Char('\n')) as int;
        lemma_run_bound(src, Stop::Char('\n'));
        if n == src.len() {
            assert(!Stop::Char('\n').holds(src[src.len() - 1]));
        }
        let head = src.take(n);
        let rest = src.skip(n + 1);
        if n > 0 {
            assert(head.last() == src[n - 1]);
        }
        assert(strip_cr(head) == head);
        assert forall|i: int| 0 < i < rest.len() && #[trigger] rest[i] == '\n' implies rest[i - 1]
            != '\r' by {
            assert(src[i + n + 1] == '\n');
        }
        if rest.len() > 0 {
            assert(rest.last() == src.last());
        }
        lemma_join_of_lines(rest);
        lemma_join_front(head, lines(rest));
        assert(head.push('\n') + rest =~= src);
    }
}

proof fn lemma_lines_hold_no_line_feed(src: Seq<char>)
    ensures
        forall|i: int, k: int|
            0 <= i < lines(src).len() && 0 <= k < lines(src)[i].len() ==> #[trigger] lines(
                src,
            )[i][k] != '\n',
    decreases src.len(),
{
    if src.len() > 0 {
        let n = run(src, Stop::Char('\n')) as int;
        lemma_run_bound(src, Stop::Char('\n'));
        if n < src.len() {
            lemma_lines_hold_no_line_feed(src.skip(n + 1));
            let head = strip_cr(src.take(n));
            let tail = lines(src.skip(n + 1));
            assert forall|i: int, k: int|
                0 <= i < lines(src).len() && 0 <= k < lines(src)[i].len() implies #[trigger] lines(
                src,
            )[i][k] != '\n' by {
                if i == 0 {
                    assert(head[k] == src[k]);
                    assert(!Stop::Char('\n').holds(src[k]));
                } else {
                    assert(lines(src)[i] == tail[i - 1]);
                }
            }
        } else {
            assert forall|i: int, k: int|
                0 <= i < lines(src).len() && 0 <= k < lines(src)[i].len() implies #[trigger] lines(
                src,
            )[i][k] != '\n' by {
                assert(!Stop::Char('\n').holds(src[k]));
            }
        }
    }
}

proof fn lemma_lines_of_join(ls: Seq<Seq<char>>)
    requires
        forall|i: int, k: int| 0 <= i < ls.len() && 0 <= k < ls[i].len() ==> #[trigger] ls[i][k] != '\n',
        forall|i: int| 0 <= i < ls.len() ==> strip_cr(#[trigger] ls[i]) == ls[i],
    ensures
        lines(join_lines(ls)) == ls,
    decreases ls.len(),
{
    if ls.len() > 0 {
        let x = ls[0];
        let rest = ls.skip(1);
        assert(ls == seq![x] + rest);
        lemma_join_front(x, rest);
        assert forall|i: int, k: int| 0 <= i < rest.len() && 0 <= k < rest[i].len() implies #[trigger] rest[i][k]
            != '\n' by {
            assert(rest[i] == ls[i + 1]);
        }
        assert forall|i: int| 0 <= i < rest.len() implies strip_cr(#[trigger] rest[i]) == rest[i] by {
            assert(rest[i] == ls[i + 1]);
        }
        lemma_lines_of_join(rest);
        let joined = x.push('\n') + join_lines(rest);
        assert forall|k: int| 0 <= k < x.len() implies !Stop::Char('\n').holds(#[trigger] joined[k]) by {
            assert(joined[k] == ls[0][k]);
        }
        assert(joined[x.len() as int] == '\n');
        lemma_run_is(joined, Stop::Char('\n'), x.len() as int);
        assert(joined.take(x.len() as int) == x);
        assert(joined.skip(x.len() as int + 1) == join_lines(rest));
    } else {
        assert(join_lines(ls) == Seq::<char>::empty());
    }
}

proof fn lemma_expand_plain_lines(
    ls: Seq<Seq<char>>,
    sources: Option<Sources>,
    depth: nat,
    max_depth: nat,
)
    requires
        depth <= max_depth,
        forall|i: int| 0 <= i < ls.len() ==> import_of(#[trigger] ls[i]) is None,
    ensures
        expand_lines(ls, sources, depth, max_depth) == join_lines(ls),
    decreases ls.len(),
{
    if ls.len() > 0 {
        let front = ls.drop_last();
        assert forall|i: int| 0 <= i < front.len() implies import_of(#[trigger] front[i]) is None by {
            assert(front[i] == ls[i]);
        }
        lemma_expand_plain_lines(front, sources, depth, max_depth);
        assert(import_of(ls[ls.len() - 1]) is None);
        assert(expand_line(ls.last(), sources, depth, max_depth) == ls.last().push('\n'));
    }
}

/// A text without imports expands to its lines, each ended by a line feed.
pub proof fn law_expansion_without_imports(
    src: Seq<char>,
    sources: Option<Sources>,
    depth: nat,
    max_depth: nat,
)
    requires
        depth <= max_depth,
        import_free(src),
    ensures
        expand(src, sources, depth, max_depth) == join_lines(lines(src)),
{
    lemma_expand_plain_lines(lines(src), sources, depth, max_depth);
}

/// On a text without imports whose lines all end with a bare line feed, the
/// expansion is the identity, whatever the lookup answers.
pub proof fn law_identity_without_imports(
    src: Seq<char>,
    sources: Option<Sources>,
    depth: nat,
    max_depth: nat,
)
    requires
        depth <= max_depth,
        import_free(src),
        line_terminated(src),
    ensures
        expand(src, sources, depth, max_depth) == src,
{
    law_expansion_without_imports(src, sources, depth, max_depth);
    lemma_join_of_lines(src);
}

/// Expanding twice gives what expanding once gives, on a text without imports
/// of which no line ends with a carriage return.
pub proof fn law_expansion_idempotent(
    src: Seq<char>,
    sources: Option<Sources>,
    depth: nat,
    max_depth: nat,
)
    requires
        depth <= max_depth,
        import_free(src),
        no_trailing_cr(src),
    ensures
        expand(expand(src, sources, depth, max_depth), sources, depth, max_depth) == expand(
            src,
            sources,
            depth,
            max_depth,
        ),
{
    law_expansion_without_imports(src, sources, depth, max_depth);
    let once = expand(src, sources, depth, max_depth);
    lemma_lines_hold_no_line_feed(src);
    lemma_lines_of_join(lines(src));
    assert(lines(once) == lines(src));
    law_expansion_without_imports(once, sources, depth, max_depth);
}

/// How many of the lines are imports.
pub open spec fn import_count(ls: Seq<Seq<char>>) -> nat
    decreases ls.len(),
{
    if ls.len() == 0 {
        0
    } else {
        import_count(ls.drop_last()) + if import_of(ls.last()) is Some {
            1nat
        } else {
            0nat
        }
    }
}

/// Whether every source that the lookup answers with has at most `limit`
/// characters and at most one import.
pub open spec fn within(sources: Option<Sources>, limit: nat) -> bool {
    sources matches Some(f) ==> forall|name: Seq<char>|
        (#[trigger] f(name)) matches Some(text) ==> text.len() <= limit && import_count(
            lines(text),
        ) <= 1
}

/// The most that one source of at most `limit` characters adds to an
/// expansion: its lines and the markers of its one import.
pub open spec fn per_source(limit: nat) -> nat {
    3 * limit + 62
}

/// The most that `levels` nested sources add.
pub open spec fn at_most(levels: nat, limit: nat) -> nat {
    levels * per_source(limit)
}

proof fn lemma_at_most_step(levels: nat, limit: nat)
    ensures
        at_most(levels + 1, limit) == at_most(levels, limit) + per_source(limit),
        at_most(0, limit) == 0,
{
    assert((levels + 1) * per_source(limit) == levels * per_source(limit) + per_source(limit))
        by (nonlinear_arith);
}

proof fn lemma_trim_end_shorter(s: Seq<char>)
    ensures
        crate::text::trim_end(s).len() <= s.len(),
    decreases s.len(),
{
    if s.len() > 0 && crate::text::is_whitespace(s.last()) {
        lemma_trim_end_shorter(s.drop_last());
    }
}

proof fn lemma_trim_shorter(s: Seq<char>)
    ensures
        trim(s).len() <= s.len(),
{
    lemma_run_bound(s, Stop::Word);
    lemma_trim_end_shorter(crate::text::trim_start(s));
}

proof fn lemma_word_shorter(s: Seq<char>)
    ensures
        word(s).len() <= s.len(),
        crate::text::after_word(s).len() <= s.len(),
{
    lemma_run_bound(s, Stop::Word);
    let t = crate::text::trim_start(s);
    lemma_run_bound(t, Stop::Whitespace);
}

/// The name that an import asks for is no longer than the line.
proof fn lemma_name_shorter(line: Seq<char>)
    ensures
        trim(line).len() <= line.len(),
        import_of(line) matches Some(Some(name)) ==> name.len() <= line.len(),
{
    lemma_trim_shorter(line);
    match directive(line) {
        Some((op, args)) => {
            let t = trim(line);
            lemma_word_shorter(t.skip(1));
            lemma_word_shorter(args);
        },
        None => {},
    }
}

proof fn lemma_marker_lengths(directive: Seq<char>, name: Seq<char>)
    ensures
        begin_marker(directive, name).len() + end_marker(name).len() == directive.len() + 2
            * name.len() + 42,
        error_marker(directive).len() == directive.len() + 59,
{
    reveal_strlit("// ");
    reveal_strlit(" // BEGIN #import '");
    reveal_strlit("'");
    reveal_strlit("// END #import '");
    reveal_strlit(" // ERROR: Preprocessor could not include file, skipped");
}

/// Whether every source that the lookup answers with expands, one level
/// deeper, to at most `inner` characters.
spec fn nested_within(sources: Option<Sources>, depth: nat, max_depth: nat, inner: nat) -> bool {
    sources matches Some(f) ==> forall|name: Seq<char>|
        (#[trigger] f(name)) is Some ==> expand(f(name)->0, sources, depth + 1, max_depth).len()
            <= inner
}

/// The expansion of one line is at most three times the line and its line
/// feed, and for an import the markers and what the imported source expands to.
proof fn lemma_line_bounded(
    line: Seq<char>,
    sources: Option<Sources>,
    depth: nat,
    max_depth: nat,
    inner: nat,
)
    requires
        depth <= max_depth,
        nested_within(sources, depth, max_depth, inner),
    ensures
        expand_line(line, sources, depth, max_depth).len() <= 3 * (line.len() + 1) + if import_of(
            line,
        ) is Some {
            59 + inner
        } else {
            0
        },
{
    lemma_name_shorter(line);
    match import_of(line) {
        None => {},
        Some(target) => {
            match (sources, target) {
                (Some(f), Some(name)) => {
                    lemma_marker_lengths(trim(line), name);
                    if f(name) is Some {
                        assert(expand(f(name)->0, sources, depth + 1, max_depth).len() <= inner);
                    }
                },
                _ => {
                    lemma_marker_lengths(trim(line), Seq::empty());
                },
            }
        },
    }
}

proof fn lemma_lines_bounded(
    ls: Seq<Seq<char>>,
    sources: Option<Sources>,
    depth: nat,
    max_depth: nat,
    inner: nat,
)
    requires
        depth <= max_depth,
        nested_within(sources, depth, max_depth, inner),
    ensures
        expand_lines(ls, sources, depth, max_depth).len() <= 3 * join_lines(ls).len()
            + import_count(ls) * (59 + inner),
    decreases ls.len(),
{
    if ls.len() > 0 {
        lemma_lines_bounded(ls.drop_last(), sources, depth, max_depth, inner);
        lemma_line_bounded(ls.last(), sources, depth, max_depth, inner);
        let n = import_count(ls.drop_last());
        assert((n + 1) * (59 + inner) == n * (59 + inner) + (59 + inner)) by (nonlinear_arith);
    } else {
        assert(0 * (59 + inner) == 0) by (nonlinear_arith);
    }
}

/// The lines of a text, each with a line feed, are at most one character more
/// than the text.
proof fn lemma_join_of_lines_bounded(src: Seq<char>)
    ensures
        join_lines(lines(src)).len() <= src.len() + 1,
        src.len() == 0 ==> join_lines(lines(src)).len() == 0,
    decreases src.len(),
{
    if src.len() > 0 {
        let n = run(src, Stop::Char('\n')) as int;
        lemma_run_bound(src, Stop::Char('\n'));
        if n < src.len() {
            let rest = src.skip(n + 1);
            lemma_join_of_lines_bounded(rest);
            lemma_join_front(strip_cr(src.take(n)), lines(rest));
            if rest.len() == 0 {
                assert(join_lines(lines(rest)).len() == 0);
            }
        } else {
            assert(lines(src) == seq![src]);
            assert(seq![src].drop_last() == Seq::<Seq<char>>::empty());
            assert(join_lines(seq![src]) == join_lines(seq![src].drop_last()) + seq![src].last().push(
                '\n',
            ));
        }
    }
}

/// Where every source, the first one and all that the lookup answers with,
/// has at most `limit` characters and at most one import, the expansion has
/// at most `3 * limit + 62` characters for each of the levels from `depth` to
/// `max_depth`: a chain of imports, be it a cycle, is cut at the limit and
/// grows with the number of levels only.
pub proof fn law_expansion_bounded(
    src: Seq<char>,
    sources: Option<Sources>,
    depth: nat,
    max_depth: nat,
    limit: nat,
)
    requires
        depth <= max_depth,
        src.len() <= limit,
        import_count(lines(src)) <= 1,
        within(sources, limit),
    ensures
        expand(src, sources, depth, max_depth).len() <= at_most(
            (max_depth + 1 - depth) as nat,
            limit,
        ),
    decreases max_depth - depth,
{
    let inner = at_most((max_depth - depth) as nat, limit);
    match sources {
        Some(f) => {
            assert forall|name: Seq<char>| (#[trigger] f(name)) is Some implies expand(
                f(name)->0,
                sources,
                depth + 1,
                max_depth,
            ).len() <= inner by {
                if depth < max_depth {
                    law_expansion_bounded(f(name)->0, sources, depth + 1, max_depth, limit);
                } else {
                    lemma_at_most_step(0, limit);
                }
            }
        },
        None => {},
    }
    lemma_lines_bounded(lines(src), sources, depth, max_depth, inner);
    lemma_join_of_lines_bounded(src);
    lemma_at_most_step((max_depth - depth) as nat, limit);
    let count = import_count(lines(src));
    assert(count * (59 + inner) <= 59 + inner) by (nonlinear_arith)
        requires
            count <= 1,
    ;
}

/// Whether the text holds no line feed.
pub open spec fn unbroken(s: Seq<char>) -> bool {
    forall|i: int| 0 <= i < s.len() ==> #[trigger] s[i] != '\n'
}

/// Whether the line holds no line feed and is no import, with or without a
/// carriage return at its end.
pub open spec fn settled(line: Seq<char>) -> bool {
    unbroken(line) && import_of(strip_cr(line)) is None
}

/// A marker without the line feed that ends it.
spec fn begin_text(directive: Seq<char>, name: Seq<char>) -> Seq<char> {
    "// "@ + directive + " // BEGIN #import '"@ + name + "'"@
}

spec fn end_text(name: Seq<char>) -> Seq<char> {
    "// END #import '"@ + name + "'"@
}

spec fn error_text(directive: Seq<char>) -> Seq<char> {
    "// "@ + directive + " // ERROR: Preprocessor could not include file, skipped"@
}

/// The lines that the expansion of a source is made of.
spec fn out_lines(src: Seq<char>, sources: Option<Sources>, depth: nat, max_depth: nat) -> Seq<
    Seq<char>,
>
    decreases max_depth + 1 - depth, 2int, 0nat,
{
    if depth > max_depth {
        Seq::empty()
    } else {
        out_lines_of(lines(src), sources, depth, max_depth)
    }
}

spec fn out_lines_of(ls: Seq<Seq<char>>, sources: Option<Sources>, depth: nat, max_depth: nat) -> Seq<
    Seq<char>,
>
    decreases max_depth + 1 - depth, 1int, ls.len(),
{
    if depth > max_depth || ls.len() == 0 {
        Seq::empty()
    } else {
        out_lines_of(ls.drop_last(), sources, depth, max_depth) + out_line(
            ls.last(),
            sources,
            depth,
            max_depth,
        )
    }
}

spec fn out_line(line: Seq<char>, sources: Option<Sources>, depth: nat, max_depth: nat) -> Seq<
    Seq<char>,
>
    decreases max_depth + 1 - depth, 0int, 0nat,
{
    if depth > max_depth {
        Seq::empty()
    } else {
        match import_of(line) {
            None => seq![line],
            Some(target) => match (sources, target) {
                (Some(f), Some(name)) => match f(name) {
                    Some(text) => seq![begin_text(trim(line), name)] + out_lines(
                        text,
                        sources,
                        depth + 1,
                        max_depth,
                    ) + seq![end_text(name)],
                    None => seq![error_text(trim(line))],
                },
                _ => seq![error_text(trim(line))],
            },
        }
    }
}

spec fn all_settled(ls: Seq<Seq<char>>) -> bool {
    forall|i: int| 0 <= i < ls.len() ==> settled(#[trigger] ls[i])
}

/// Whether the text is made of settled lines, each ended by a line feed.
spec fn joins_settled(text: Seq<char>) -> bool {
    exists|ls: Seq<Seq<char>>| all_settled(ls) && text == join_lines(ls)
}

/// A text made of settled lines holds no import.
proof fn lemma_settled_import_free(text: Seq<char>)
    requires
        joins_settled(text),
    ensures
        import_free(text),
{
    let made = choose|ls: Seq<Seq<char>>| all_settled(ls) && text == join_lines(ls);
    assert forall|i: int| 0 <= i < made.len() implies unbroken(#[trigger] made[i]) by {
        assert(settled(made[i]));
    }
    lemma_lines_of_settled(made);
    assert forall|i: int| 0 <= i < lines(text).len() implies import_of(#[trigger] lines(text)[i])
        is None by {
        assert(settled(made[i]));
        assert(lines(text)[i] == strip_cr(made[i]));
    }
}

proof fn lemma_join_concat(a: Seq<Seq<char>>, b: Seq<Seq<char>>)
    ensures
        join_lines(a + b) == join_lines(a) + join_lines(b),
    decreases b.len(),
{
    if b.len() == 0 {
        assert(a + b == a);
        assert(join_lines(a) + join_lines(b) == join_lines(a));
    } else {
        assert((a + b).drop_last() == a + b.drop_last());
        assert((a + b).last() == b.last());
        lemma_join_concat(a, b.drop_last());
        assert(join_lines(a + b) == join_lines(a) + (join_lines(b.drop_last()) + b.last().push(
            '\n',
        )));
    }
}

proof fn lemma_join_one(x: Seq<char>)
    ensures
        join_lines(seq![x]) == x.push('\n'),
{
    assert(seq![x].drop_last() == Seq::<Seq<char>>::empty());
    assert(join_lines(seq![x]) == join_lines(seq![x].drop_last()) + seq![x].last().push('\n'));
}

/// What is left of a text without its trailing white space is where the text
/// begins.
proof fn lemma_trim_end_prefix(s: Seq<char>)
    ensures
        crate::text::trim_end(s).len() <= s.len(),
        crate::text::trim_end(s) == s.take(crate::text::trim_end(s).len() as int),
    decreases s.len(),
{
    if s.len() > 0 && crate::text::is_whitespace(s.last()) {
        lemma_trim_end_prefix(s.drop_last());
        let t = crate::text::trim_end(s.drop_last());
        assert(s.drop_last().take(t.len() as int) == s.take(t.len() as int));
    } else {
        assert(s.take(s.len() as int) == s);
    }
}

/// A carriage return at the end of a line is white space, which trimming
/// takes away.
proof fn lemma_trim_ignores_cr(line: Seq<char>)
    ensures
        trim(strip_cr(line)) == trim(line),
        directive(strip_cr(line)) == directive(line),
        import_of(strip_cr(line)) == import_of(line),
{
    if line.len() > 0 && line.last() == '\r' {
        let shorter = line.drop_last();
        let n = run(line, Stop::Word) as int;
        lemma_run_bound(line, Stop::Word);
        assert(crate::text::is_whitespace('\r'));
        if n == line.len() {
            assert forall|k: int| 0 <= k < shorter.len() implies !Stop::Word.holds(
                #[trigger] shorter[k],
            ) by {
                assert(shorter[k] == line[k]);
            }
            lemma_run_is(shorter, Stop::Word, shorter.len() as int);
            assert(crate::text::trim_start(line) == Seq::<char>::empty());
            assert(crate::text::trim_start(shorter) == Seq::<char>::empty());
        } else {
            assert(Stop::Word.holds(line[n]));
            assert(n < line.len() - 1);
            assert forall|k: int| 0 <= k < n implies !Stop::Word.holds(#[trigger] shorter[k]) by {
                assert(shorter[k] == line[k]);
            }
            assert(shorter[n] == line[n]);
            lemma_run_is(shorter, Stop::Word, n);
            let rest = line.skip(n);
            assert(rest.last() == '\r');
            assert(rest.drop_last() == shorter.skip(n));
        }
    }
}

/// A line that begins with a slash is no directive.
proof fn lemma_comment_is_no_directive(line: Seq<char>)
    requires
        line.len() > 0,
        line[0] == '/',
    ensures
        directive(line) is None,
        import_of(line) is None,
{
    assert(!crate::text::is_whitespace('/'));
    lemma_run_is(line, Stop::Word, 0);
    assert(crate::text::trim_start(line) == line);
    lemma_trim_end_prefix(line);
    let t = trim(line);
    if t.len() > 0 {
        assert(t[0] == line.take(t.len() as int)[0]);
    }
}

/// What trimming and the reading of an import take from a line without a line
/// feed holds no line feed.
proof fn lemma_parts_unbroken(line: Seq<char>)
    requires
        unbroken(line),
    ensures
        unbroken(trim(line)),
        import_of(line) matches Some(Some(name)) ==> unbroken(name),
{
    let start = crate::text::trim_start(line);
    lemma_run_bound(line, Stop::Word);
    assert forall|i: int| 0 <= i < start.len() implies #[trigger] start[i] != '\n' by {
        assert(start[i] == line[i + run(line, Stop::Word)]);
    }
    lemma_trim_end_prefix(start);
    let t = trim(line);
    assert forall|i: int| 0 <= i < t.len() implies #[trigger] t[i] != '\n' by {
        assert(t[i] == start.take(t.len() as int)[i]);
        assert(start[i] != '\n');
    }
    match directive(line) {
        Some((op, args)) => {
            let rest = t.skip(1);
            lemma_run_bound(rest, Stop::Word);
            let rest_start = crate::text::trim_start(rest);
            lemma_run_bound(rest_start, Stop::Whitespace);
            assert forall|i: int| 0 <= i < args.len() implies #[trigger] args[i] != '\n' by {
                let a = run(rest, Stop::Word) + run(rest_start, Stop::Whitespace);
                assert(args[i] == rest[i + a]);
                assert(rest[i + a] == t[i + a + 1]);
            }
            lemma_run_bound(args, Stop::Word);
            let args_start = crate::text::trim_start(args);
            lemma_run_bound(args_start, Stop::Whitespace);
            let token = word(args);
            assert forall|i: int| 0 <= i < token.len() implies #[trigger] token[i] != '\n' by {
                assert(token[i] == args_start[i]);
                assert(args_start[i] == args[i + run(args, Stop::Word)]);
            }
            let a = strip_prefix(token, '"');
            assert(unbroken(a)) by {
                assert forall|i: int| 0 <= i < a.len() implies #[trigger] a[i] != '\n' by {
                    if a.len() < token.len() {
                        assert(a[i] == token[i + 1]);
                    }
                }
            }
            let b = strip_suffix(a, '"');
            assert(unbroken(b)) by {
                assert forall|i: int| 0 <= i < b.len() implies #[trigger] b[i] != '\n' by {
                    assert(b[i] == a[i]);
                }
            }
            let c = strip_prefix(b, '<');
            assert(unbroken(c)) by {
                assert forall|i: int| 0 <= i < c.len() implies #[trigger] c[i] != '\n' by {
                    if c.len() < b.len() {
                        assert(c[i] == b[i + 1]);
                    }
                }
            }
            let d = strip_suffix(c, '>');
            assert(unbroken(d)) by {
                assert forall|i: int| 0 <= i < d.len() implies #[trigger] d[i] != '\n' by {
                    assert(d[i] == c[i]);
                }
            }
        },
        None => {},
    }
}

/// The markers are settled lines, each followed by a line feed.
proof fn lemma_markers_settled(directive: Seq<char>, name: Seq<char>)
    requires
        unbroken(directive),
        unbroken(name),
    ensures
        settled(begin_text(directive, name)),
        settled(end_text(name)),
        settled(error_text(directive)),
        begin_marker(directive, name) == begin_text(directive, name).push('\n'),
        end_marker(name) == end_text(name).push('\n'),
        error_marker(directive) == error_text(directive).push('\n'),
{
    reveal_strlit("// ");
    reveal_strlit(" // BEGIN #import '");
    reveal_strlit("'");
    reveal_strlit("// END #import '");
    reveal_strlit(" // ERROR: Preprocessor could not include file, skipped");
    let b = begin_text(directive, name);
    let e = end_text(name);
    let x = error_text(directive);
    assert(b[0] == '/' && e[0] == '/' && x[0] == '/');
    assert(unbroken(b)) by {
        assert forall|i: int| 0 <= i < b.len() implies #[trigger] b[i] != '\n' by {
            if i < 3 {
            } else if i < 3 + directive.len() {
                assert(b[i] == directive[i - 3]);
            } else if i < 3 + directive.len() + 19 {
            } else if i < 3 + directive.len() + 19 + name.len() {
                assert(b[i] == name[i - 3 - directive.len() - 19]);
            } else {
            }
        }
    }
    assert(unbroken(e)) by {
        assert forall|i: int| 0 <= i < e.len() implies #[trigger] e[i] != '\n' by {
            if i < 16 {
            } else if i < 16 + name.len() {
                assert(e[i] == name[i - 16]);
            } else {
            }
        }
    }
    assert(unbroken(x)) by {
        assert forall|i: int| 0 <= i < x.len() implies #[trigger] x[i] != '\n' by {
            if i < 3 {
            } else if i < 3 + directive.len() {
                assert(x[i] == directive[i - 3]);
            } else {
            }
        }
    }
    lemma_comment_is_no_directive(b);
    lemma_comment_is_no_directive(e);
    lemma_comment_is_no_directive(x);
    lemma_trim_ignores_cr(b);
    lemma_trim_ignores_cr(e);
    lemma_trim_ignores_cr(x);
    assert(begin_marker(directive, name) =~= b.push('\n'));
    assert(end_marker(name) =~= e.push('\n'));
    assert(error_marker(directive) =~= x.push('\n'));
}

proof fn lemma_settled_concat(a: Seq<Seq<char>>, b: Seq<Seq<char>>)
    requires
        all_settled(a),
        all_settled(b),
    ensures
        all_settled(a + b),
{
    assert forall|i: int| 0 <= i < (a + b).len() implies settled(#[trigger] (a + b)[i]) by {
        if i < a.len() {
            assert((a + b)[i] == a[i]);
        } else {
            assert((a + b)[i] == b[i - a.len()]);
        }
    }
}

proof fn lemma_out_line(line: Seq<char>, sources: Option<Sources>, depth: nat, max_depth: nat)
    requires
        unbroken(line),
    ensures
        expand_line(line, sources, depth, max_depth) == join_lines(
            out_line(line, sources, depth, max_depth),
        ),
        all_settled(out_line(line, sources, depth, max_depth)),
    decreases max_depth + 1 - depth, 0int, 0nat,
{
    if depth <= max_depth {
        lemma_parts_unbroken(line);
        lemma_trim_ignores_cr(line);
        match import_of(line) {
            None => {
                lemma_join_one(line);
            },
            Some(target) => {
                match (sources, target) {
                    (Some(f), Some(name)) => {
                        lemma_markers_settled(trim(line), name);
                        match f(name) {
                            Some(text) => {
                                lemma_out_lines(text, sources, depth + 1, max_depth);
                                let first = seq![begin_text(trim(line), name)];
                                let inner = out_lines(text, sources, depth + 1, max_depth);
                                let last = seq![end_text(name)];
                                lemma_join_one(begin_text(trim(line), name));
                                lemma_join_one(end_text(name));
                                lemma_join_concat(first, inner);
                                lemma_join_concat(first + inner, last);
                                lemma_settled_concat(first, inner);
                                lemma_settled_concat(first + inner, last);
                            },
                            None => {
                                lemma_join_one(error_text(trim(line)));
                            },
                        }
                    },
                    _ => {
                        lemma_markers_settled(trim(line), Seq::empty());
                        lemma_join_one(error_text(trim(line)));
                    },
                }
            },
        }
    } else {
        assert(join_lines(Seq::<Seq<char>>::empty()) == Seq::<char>::empty());
    }
}

proof fn lemma_out_lines_of(ls: Seq<Seq<char>>, sources: Option<Sources>, depth: nat, max_depth: nat)
    requires
        forall|i: int| 0 <= i < ls.len() ==> unbroken(#[trigger] ls[i]),
    ensures
        expand_lines(ls, sources, depth, max_depth) == join_lines(
            out_lines_of(ls, sources, depth, max_depth),
        ),
        all_settled(out_lines_of(ls, sources, depth, max_depth)),
    decreases max_depth + 1 - depth, 1int, ls.len(),
{
    if depth <= max_depth && ls.len() > 0 {
        let front = ls.drop_last();
        assert forall|i: int| 0 <= i < front.len() implies unbroken(#[trigger] front[i]) by {
            assert(front[i] == ls[i]);
        }
        assert(unbroken(ls[ls.len() - 1]));
        lemma_out_lines_of(front, sources, depth, max_depth);
        lemma_out_line(ls.last(), sources, depth, max_depth);
        lemma_join_concat(
            out_lines_of(front, sources, depth, max_depth),
            out_line(ls.last(), sources, depth, max_depth),
        );
        lemma_settled_concat(
            out_lines_of(front, sources, depth, max_depth),
            out_line(ls.last(), sources, depth, max_depth),
        );
    } else {
        assert(join_lines(Seq::<Seq<char>>::empty()) == Seq::<char>::empty());
    }
}

proof fn lemma_out_lines(src: Seq<char>, sources: Option<Sources>, depth: nat, max_depth: nat)
    ensures
        expand(src, sources, depth, max_depth) == join_lines(
            out_lines(src, sources, depth, max_depth),
        ),
        all_settled(out_lines(src, sources, depth, max_depth)),
    decreases max_depth + 1 - depth, 2int, 0nat,
{
    if depth <= max_depth {
        lemma_lines_hold_no_line_feed(src);
        assert forall|i: int| 0 <= i < lines(src).len() implies unbroken(#[trigger] lines(src)[i]) by {
            assert forall|k: int| 0 <= k < lines(src)[i].len() implies #[trigger] lines(src)[i][k]
                != '\n' by {}
        }
        lemma_out_lines_of(lines(src), sources, depth, max_depth);
    } else {
        assert(join_lines(Seq::<Seq<char>>::empty()) == Seq::<char>::empty());
    }
}

/// The lines of settled lines that are joined are these lines, each without
/// the carriage return at its end.
proof fn lemma_lines_of_settled(ls: Seq<Seq<char>>)
    requires
        forall|i: int| 0 <= i < ls.len() ==> unbroken(#[trigger] ls[i]),
    ensures
        lines(join_lines(ls)).len() == ls.len(),
        forall|i: int| 0 <= i < ls.len() ==> #[trigger] lines(join_lines(ls))[i] == strip_cr(ls[i]),
    decreases ls.len(),
{
    if ls.len() > 0 {
        let x = ls[0];
        let rest = ls.skip(1);
        assert(ls == seq![x] + rest);
        lemma_join_front(x, rest);
        assert forall|i: int| 0 <= i < rest.len() implies unbroken(#[trigger] rest[i]) by {
            assert(rest[i] == ls[i + 1]);
        }
        lemma_lines_of_settled(rest);
        let joined = x.push('\n') + join_lines(rest);
        assert(unbroken(ls[0]));
        assert forall|k: int| 0 <= k < x.len() implies !Stop::Char('\n').holds(#[trigger] joined[k]) by {
            assert(joined[k] == x[k]);
        }
        assert(joined[x.len() as int] == '\n');
        lemma_run_is(joined, Stop::Char('\n'), x.len() as int);
        assert(joined.take(x.len() as int) == x);
        assert(joined.skip(x.len() as int + 1) == join_lines(rest));
        let all = lines(joined);
        assert(all == seq![strip_cr(x)] + lines(join_lines(rest)));
        assert forall|i: int| 0 <= i < ls.len() implies #[trigger] all[i] == strip_cr(ls[i]) by {
            if i > 0 {
                assert(all[i] == lines(join_lines(rest))[i - 1]);
                assert(rest[i - 1] == ls[i]);
            }
        }
    } else {
        assert(join_lines(ls) == Seq::<char>::empty());
    }
}

/// No line of an expansion is an import: every import has become a comment.
pub proof fn law_expansion_import_free(
    src: Seq<char>,
    sources: Option<Sources>,
    depth: nat,
    max_depth: nat,
)
    ensures
        import_free(expand(src, sources, depth, max_depth)),
{
    lemma_out_lines(src, sources, depth, max_depth);
    let made = out_lines(src, sources, depth, max_depth);
    assert forall|i: int| 0 <= i < made.len() implies unbroken(#[trigger] made[i]) by {
        assert(settled(made[i]));
    }
    lemma_lines_of_settled(made);
    let text = expand(src, sources, depth, max_depth);
    assert forall|i: int| 0 <= i < lines(text).len() implies import_of(#[trigger] lines(text)[i])
        is None by {
        assert(settled(made[i]));
        assert(lines(text)[i] == strip_cr(made[i]));
    }
}

/// Expanding an expansion once more changes nothing, whatever the lookup
/// answers then, where no line feed of the expansion follows a carriage
/// return.
pub proof fn law_expansion_settled(
    src: Seq<char>,
    sources: Option<Sources>,
    depth: nat,
    max_depth: nat,
    again: Option<Sources>,
    depth_again: nat,
    max_again: nat,
)
    requires
        depth_again <= max_again,
        bare_line_feeds(expand(src, sources, depth, max_depth)),
    ensures
        expand(expand(src, sources, depth, max_depth), again, depth_again, max_again) == expand(
            src,
            sources,
            depth,
            max_depth,
        ),
{
    let once = expand(src, sources, depth, max_depth);
    law_expansion_import_free(src, sources, depth, max_depth);
    lemma_out_lines(src, sources, depth, max_depth);
    let made = out_lines(src, sources, depth, max_depth);
    if made.len() > 0 {
        assert(once == join_lines(made.drop_last()) + made.last().push('\n'));
        assert(once.last() == '\n');
    } else {
        assert(once == Seq::<char>::empty());
    }
    law_identity_without_imports(once, again, depth_again, max_again);
}

} // verus!

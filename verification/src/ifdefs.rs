//! Resolution of `#ifdef`, `#else`, `#endif`, `#define` and `#undef`, of macro
//! substitution and of `@group_binding(NAME)`.
//!
//! The pass reads the text line by line and keeps a nesting depth, a flag that
//! says whether output is suppressed, the table of definitions and the table of
//! binding labels. `step` says what one line does to that state and what it
//! adds to the output; `run` does so for a sequence of lines.

use crate::defines::{DefineTable, Defines};
use crate::imports::{
    describes, expand, import_of, preprocess_resolve_imports, Sources, MAX_RECURSION,
};
use crate::symbolic::{lemma_assign_room, Bindings, SymbolicBindingTable};
use crate::text::{
    chars_of, copy_of, decimal, directive, find, find_from, lines, parse_directive, push_all,
    push_decimal, replace, replaced, run as run_of, scan, slice, split_lines, split_word,
    string_of, trim, trimmed, views, word, after_word, Stop,
};
use vstd::prelude::*;

verus! {

/// What the first word of a directive asks for.
#[derive(Clone, Copy, Debug, PartialEq, Eq)]
pub enum Op {
    Endif,
    Ifdef,
    Else,
    Define,
    Undef,
    Import,
    Other,
}

/// Why a text could not be resolved.
#[derive(Clone, Copy, Debug, PartialEq, Eq)]
pub enum PreprocessError {
    /// An `#import` stands at the line of this index: imports have to be
    /// resolved before.
    UnresolvedImport { line: usize },
    /// The text has more lines than the depth and the bindings can count.
    TooManyLines,
}

/// What the word asks for, as the first word of a directive.
pub open spec fn op_of(w: Seq<char>) -> Op {
    if w == "endif"@ {
        Op::Endif
    } else if w == "ifdef"@ {
        Op::Ifdef
    } else if w == "else"@ {
        Op::Else
    } else if w == "define"@ {
        Op::Define
    } else if w == "undef"@ || w == "undefine"@ {
        Op::Undef
    } else if w == "import"@ {
        Op::Import
    } else {
        Op::Other
    }
}

fn classify(w: &Vec<char>) -> (op: Op)
    ensures
        op == op_of(w@),
{
    if crate::text::same(w, &chars_of("endif")) {
        Op::Endif
    } else if crate::text::same(w, &chars_of("ifdef")) {
        Op::Ifdef
    } else if crate::text::same(w, &chars_of("else")) {
        Op::Else
    } else if crate::text::same(w, &chars_of("define")) {
        Op::Define
    } else if crate::text::same(w, &chars_of("undef")) || crate::text::same(
        w,
        &chars_of("undefine"),
    ) {
        Op::Undef
    } else if crate::text::same(w, &chars_of("import")) {
        Op::Import
    } else {
        Op::Other
    }
}

/// The state of the pass between two lines.
pub struct Resolution {
    /// How many suppressed regions are open.
    pub depth: nat,
    /// Whether output is suppressed.
    pub skip: bool,
    pub defs: Defines,
    pub bindings: Bindings,
    /// The keys of the `#ifdef` lines that were met while output was not
    /// suppressed, in their order.
    pub encountered: Seq<Seq<char>>,
    pub output: Seq<char>,
}

/// What the directive of a line, if it is one, decides.
pub struct Turn {
    pub depth: nat,
    pub skip: bool,
    pub defs: Defines,
    pub encountered: Seq<Seq<char>>,
    /// Whether the line is written as a comment.
    pub comment: bool,
    /// What the comment says after the line.
    pub reason: Option<Seq<char>>,
}

/// The depth after one suppressed region is closed, if one is open.
pub open spec fn lower(depth: nat) -> nat {
    if depth > 0 {
        (depth - 1) as nat
    } else {
        0
    }
}

/// What a comment says of a branch that is taken or not.
pub open spec fn branch(taken: bool) -> Seq<char> {
    if taken {
        " (true)"@
    } else {
        " (false)"@
    }
}

/// What the line decides in the state `st`, or nothing where it is an
/// `#import`, whether output is suppressed or not.
///
/// A line that is no directive leaves the state as it is and is a comment
/// exactly where output is suppressed. `#endif` and `#else` close one
/// suppressed region, if one is open. `#ifdef KEY` opens one more where output
/// is suppressed already; elsewhere it is recorded, and suppresses output
/// where `KEY` is not defined. `#define KEY [VALUE]` and `#undef KEY` change the
/// table whether output is suppressed or not.
pub open spec fn turn(st: Resolution, line: Seq<char>) -> Option<Turn> {
    let stay = Turn {
        depth: st.depth,
        skip: st.skip,
        defs: st.defs,
        encountered: st.encountered,
        comment: st.skip,
        reason: None,
    };
    match directive(line) {
        None => Some(stay),
        Some((w, args)) => {
            let key = word(args);
            let value = word(after_word(args));
            match op_of(w) {
                Op::Endif => Some(Turn { depth: lower(st.depth), comment: true, ..stay }),
                Op::Ifdef => if st.skip {
                    Some(Turn { depth: st.depth + 1, ..stay })
                } else if key.len() == 0 {
                    Some(Turn { comment: true, ..stay })
                } else if st.defs.contains_key(key) {
                    Some(
                        Turn {
                            encountered: st.encountered.push(key),
                            comment: true,
                            reason: Some(branch(true)),
                            ..stay
                        },
                    )
                } else {
                    Some(
                        Turn {
                            depth: st.depth + 1,
                            skip: true,
                            encountered: st.encountered.push(key),
                            comment: true,
                            reason: Some(branch(false)),
                            ..stay
                        },
                    )
                },
                Op::Else => Some(
                    Turn {
                        depth: lower(st.depth),
                        comment: true,
                        reason: Some(branch(st.depth > 0)),
                        ..stay
                    },
                ),
                Op::Define => if key.len() > 0 {
                    Some(
                        Turn {
                            defs: st.defs.insert(key, value),
                            comment: true,
                            reason: Some(" (defined "@ + key + ")"@),
                            ..stay
                        },
                    )
                } else {
                    Some(Turn { comment: true, ..stay })
                },
                Op::Undef => if key.len() > 0 {
                    Some(
                        Turn {
                            defs: st.defs.remove(key),
                            comment: true,
                            reason: Some(" (undefined "@ + key + ")"@),
                            ..stay
                        },
                    )
                } else {
                    Some(Turn { comment: true, ..stay })
                },
                Op::Import => None,
                Op::Other => Some(stay),
            }
        },
    }
}

/// The label of the symbolic binding of a line: the line holds
/// `@group_binding(` and a `)` after it, and the label is what stands between
/// the first of each, without white space around it.
pub open spec fn binding_label(line: Seq<char>) -> Option<Seq<char>> {
    match find(line, "@group_binding("@) {
        Some(i) => {
            let rest = line.skip(i + "@group_binding("@.len());
            let close = run_of(rest, Stop::Char(')')) as int;
            if close < rest.len() {
                Some(trim(rest.take(close)))
            } else {
                None
            }
        },
        None => None,
    }
}

/// The symbolic binding as it is written in a line.
pub open spec fn symbolic(label: Seq<char>) -> Seq<char> {
    "@group_binding("@ + label + ")"@
}

/// The group and the binding as they are written in its place.
pub open spec fn concrete(group: nat, binding: nat) -> Seq<char> {
    "@group("@ + decimal(group) + ") @binding("@ + decimal(binding) + ")"@
}

/// The line as a comment, with the reason after it.
pub open spec fn commented(text: Seq<char>, reason: Option<Seq<char>>) -> Seq<char> {
    match reason {
        Some(r) => ("//\t\t"@ + text + "\t"@ + r).push('\n'),
        None => ("//\t\t"@ + text).push('\n'),
    }
}

/// The line with its symbolic binding made concrete, and the table after that.
pub open spec fn bound(line: Seq<char>, bindings: Bindings) -> (Seq<char>, Bindings) {
    match binding_label(line) {
        Some(label) => {
            let gb = bindings.group_and_binding(label);
            (replace(line, symbolic(label), concrete(gb.0, gb.1)), bindings.assign(label))
        },
        None => (line, bindings),
    }
}

/// The state after the line, or nothing where the line is an `#import`.
///
/// A comment holds the line as it stands after its symbolic binding was made
/// concrete; a line that passes through has the definitions applied as well.
/// Output that was suppressed is let through again from the next line on once
/// no suppressed region is open.
pub open spec fn step(st: Resolution, line: Seq<char>) -> Option<Resolution> {
    match turn(st, line) {
        None => None,
        Some(t) => {
            let (text, bindings) = bound(line, st.bindings);
            let emitted = if t.comment {
                commented(text, t.reason)
            } else {
                t.defs.apply(text).push('\n')
            };
            Some(
                Resolution {
                    depth: t.depth,
                    skip: t.skip && t.depth != 0,
                    defs: t.defs,
                    bindings,
                    encountered: t.encountered,
                    output: st.output + emitted,
                },
            )
        },
    }
}

/// The state in which the pass over `ls` ends, and the index of the line at
/// which it stopped, if it did; `first` is the index of `ls[0]`.
pub open spec fn run(st: Resolution, ls: Seq<Seq<char>>, first: nat) -> (Resolution, Option<nat>)
    decreases ls.len(),
{
    if ls.len() == 0 {
        (st, None)
    } else {
        match step(st, ls[0]) {
            None => (st, Some(first)),
            Some(next) => run(next, ls.skip(1), first + 1),
        }
    }
}

/// The state in which the pass begins.
pub open spec fn start(
    depth: nat,
    defs: Defines,
    bindings: Bindings,
    encountered: Seq<Seq<char>>,
) -> Resolution {
    Resolution { depth, skip: depth != 0, defs, bindings, encountered, output: Seq::empty() }
}

/// The texts of the strings.
pub open spec fn names(v: Seq<String>) -> Seq<Seq<char>> {
    v.map_values(|s: String| s@)
}

/// What `take_turn` hands back: depth, skip, comment and reason of a `Turn`.
struct Decision {
    depth: u32,
    skip: bool,
    comment: bool,
    reason: Option<Vec<char>>,
}

spec fn reason_view(r: Option<Vec<char>>) -> Option<Seq<char>> {
    match r {
        Some(v) => Some(v@),
        None => None,
    }
}

fn branch_chars(taken: bool) -> (r: Vec<char>)
    ensures
        r@ == branch(taken),
{
    if taken {
        chars_of(" (true)")
    } else {
        chars_of(" (false)")
    }
}

fn lowered(depth: u32) -> (r: u32)
    ensures
        r == lower(depth as nat),
{
    if depth > 0 {
        depth - 1
    } else {
        0
    }
}

fn take_turn(
    depth: u32,
    skip: bool,
    defs: &mut DefineTable,
    encountered: &mut Vec<String>,
    line: &Vec<char>,
    Ghost(st): Ghost<Resolution>,
) -> (r: Option<Decision>)
    requires
        depth < u32::MAX,
        st.depth == depth,
        st.skip == skip,
        st.defs == old(defs)@,
        st.encountered == names(old(encountered)@),
    ensures
        match r {
            Some(d) => turn(st, line@) == Some(
                Turn {
                    depth: d.depth as nat,
                    skip: d.skip,
                    defs: final(defs)@,
                    encountered: names(final(encountered)@),
                    comment: d.comment,
                    reason: reason_view(d.reason),
                },
            ) && d.depth <= depth + 1,
            None => turn(st, line@) is None && final(defs)@ == old(defs)@ && names(
                final(encountered)@,
            ) == names(old(encountered)@),
        },
{
    let stay = Decision { depth, skip, comment: skip, reason: None };
    match parse_directive(line) {
        None => Some(stay),
        Some((w, args)) => {
            let (key, rest) = split_word(&args);
            let (value, _more) = split_word(&rest);
            match classify(&w) {
                Op::Endif => Some(
                    Decision { depth: lowered(depth), skip, comment: true, reason: None },
                ),
                Op::Ifdef => {
                    if skip {
                        Some(Decision { depth: depth + 1, skip, comment: skip, reason: None })
                    } else if key.len() == 0 {
                        Some(Decision { depth, skip, comment: true, reason: None })
                    } else {
                        let ghost before = names(encountered@);
                        encountered.push(string_of(&key));
                        assert(names(encountered@) =~= before.push(key@));
                        if defs.contains_chars(&key) {
                            Some(
                                Decision {
                                    depth,
                                    skip,
                                    comment: true,
                                    reason: Some(branch_chars(true)),
                                },
                            )
                        } else {
                            Some(
                                Decision {
                                    depth: depth + 1,
                                    skip: true,
                                    comment: true,
                                    reason: Some(branch_chars(false)),
                                },
                            )
                        }
                    }
                },
                Op::Else => Some(
                    Decision {
                        depth: lowered(depth),
                        skip,
                        comment: true,
                        reason: Some(branch_chars(depth > 0)),
                    },
                ),
                Op::Define => {
                    if key.len() > 0 {
                        let mut reason = chars_of(" (defined ");
                        push_all(&mut reason, &key);
                        push_all(&mut reason, &chars_of(")"));
                        defs.insert_chars(key, value);
                        Some(Decision { depth, skip, comment: true, reason: Some(reason) })
                    } else {
                        Some(Decision { depth, skip, comment: true, reason: None })
                    }
                },
                Op::Undef => {
                    if key.len() > 0 {
                        let mut reason = chars_of(" (undefined ");
                        push_all(&mut reason, &key);
                        push_all(&mut reason, &chars_of(")"));
                        defs.remove_chars(&key);
                        Some(Decision { depth, skip, comment: true, reason: Some(reason) })
                    } else {
                        Some(Decision { depth, skip, comment: true, reason: None })
                    }
                },
                Op::Import => None,
                Op::Other => Some(stay),
            }
        },
    }
}

fn parse_binding_label(line: &Vec<char>) -> (r: Option<Vec<char>>)
    ensures
        reason_view(r) == binding_label(line@),
{
    let needle = chars_of("@group_binding(");
    assert(line@.skip(0) == line@);
    match find_from(line, 0, &needle) {
        Some(at) => {
            let from = at + needle.len();
            let close = scan(line, from, Stop::Char(')'));
            if close < line.len() {
                assert(line@.skip(from as int).take(close - from) == line@.subrange(
                    from as int,
                    close as int,
                ));
                Some(trimmed(&slice(line, from, close)))
            } else {
                None
            }
        },
        None => None,
    }
}

fn bind(line: &Vec<char>, bindings: &mut SymbolicBindingTable) -> (text: Vec<char>)
    requires
        old(bindings)@.has_room(1),
    ensures
        (text@, final(bindings)@) == bound(line@, old(bindings)@),
        binding_label(line@) is None ==> final(bindings)@ == old(bindings)@,
        binding_label(line@) matches Some(label) ==> final(bindings)@ == old(bindings)@.assign(
            label,
        ),
{
    match parse_binding_label(line) {
        Some(label) => {
            let (group, binding) = bindings.assign_chars(&label);
            let mut from = chars_of("@group_binding(");
            push_all(&mut from, &label);
            push_all(&mut from, &chars_of(")"));
            let mut to = chars_of("@group(");
            push_decimal(&mut to, group);
            push_all(&mut to, &chars_of(") @binding("));
            push_decimal(&mut to, binding);
            push_all(&mut to, &chars_of(")"));
            replaced(line, &from, &to)
        },
        None => copy_of(line),
    }
}

fn push_commented(out: &mut Vec<char>, text: &Vec<char>, reason: &Option<Vec<char>>)
    ensures
        final(out)@ == old(out)@ + commented(text@, reason_view(*reason)),
{
    let ghost before = out@;
    push_all(out, &chars_of("//\t\t"));
    push_all(out, text);
    match reason {
        Some(r) => {
            push_all(out, &chars_of("\t"));
            push_all(out, r);
        },
        None => {},
    }
    out.push('\n');
    assert(out@ =~= before + commented(text@, reason_view(*reason)));
}

/// Resolves the conditional directives, the definitions and the symbolic
/// bindings of `src`, beginning `start_depth` suppressed regions deep.
///
/// The result is the depth at which the pass ended and the text it wrote. The
/// tables and the list of met `#ifdef` keys are left as the pass left them. An
/// `#import` stops the pass at its line.
pub fn preprocess_resolve_ifdefs_implementation(
    src: &str,
    defs: &mut DefineTable,
    encountered_ifdef: &mut Vec<String>,
    group_and_binding_for: &mut SymbolicBindingTable,
    start_depth: u32,
) -> (r: Result<(u32, String), PreprocessError>)
    requires
        start_depth + lines(src@).len() <= u32::MAX,
        old(group_and_binding_for)@.has_room(lines(src@).len()),
    ensures
        ({
            let end = run(
                start(
                    start_depth as nat,
                    old(defs)@,
                    old(group_and_binding_for)@,
                    names(old(encountered_ifdef)@),
                ),
                lines(src@),
                0,
            );
            &&& final(defs)@ == end.0.defs
            &&& final(group_and_binding_for)@ == end.0.bindings
            &&& names(final(encountered_ifdef)@) == end.0.encountered
            &&& match r {
                Ok((depth, text)) => end.1 is None && depth == end.0.depth && text@
                    == end.0.output,
                Err(e) => e matches PreprocessError::UnresolvedImport { line } && end.1 == Some(
                    line as nat,
                ),
            }
        }),
{
    let ls = split_lines(&chars_of(src));
    let ghost all = lines(src@);
    let ghost begin = start(
        start_depth as nat,
        defs@,
        group_and_binding_for@,
        names(encountered_ifdef@),
    );
    let mut out: Vec<char> = Vec::new();
    let mut depth: u32 = start_depth;
    let mut skip: bool = start_depth != 0;
    let mut i: usize = 0;
    assert(all.skip(0) == all);
    while i < ls.len()
        invariant
            i <= ls.len(),
            views(ls@) == all,
            all == lines(src@),
            begin == start(
                start_depth as nat,
                old(defs)@,
                old(group_and_binding_for)@,
                names(old(encountered_ifdef)@),
            ),
            depth + (all.len() - i) <= u32::MAX,
            group_and_binding_for@.has_room((all.len() - i) as nat),
            run(begin, all, 0) == run(
                Resolution {
                    depth: depth as nat,
                    skip,
                    defs: defs@,
                    bindings: group_and_binding_for@,
                    encountered: names(encountered_ifdef@),
                    output: out@,
                },
                all.skip(i as int),
                i as nat,
            ),
        decreases ls.len() - i,
    {
        let line = &ls[i];
        let ghost st = Resolution {
            depth: depth as nat,
            skip,
            defs: defs@,
            bindings: group_and_binding_for@,
            encountered: names(encountered_ifdef@),
            output: out@,
        };
        proof {
            assert(all.skip(i as int)[0] == line@);
            assert(all.skip(i as int).skip(1) == all.skip(i + 1));
            lemma_assign_room_kept(st.bindings, line@, (all.len() - i - 1) as nat);
        }
        match take_turn(depth, skip, defs, encountered_ifdef, line, Ghost(st)) {
            None => {
                proof {
                    assert(step(st, line@) is None);
                    assert(run(st, all.skip(i as int), i as nat) == (st, Some(i as nat)));
                }
                return Err(PreprocessError::UnresolvedImport { line: i });
            },
            Some(d) => {
                let text = bind(line, group_and_binding_for);
                if d.comment {
                    push_commented(&mut out, &text, &d.reason);
                } else {
                    let applied = defs.apply_chars(&text);
                    push_all(&mut out, &applied);
                    out.push('\n');
                }
                depth = d.depth;
                skip = d.skip && d.depth != 0;
            },
        }
        i += 1;
    }
    Ok((depth, string_of(&out)))
}

/// After a line, whatever it is, the table has room for one binding less.
proof fn lemma_assign_room_kept(b: Bindings, line: Seq<char>, n: nat)
    requires
        b.has_room(n + 1),
    ensures
        b.has_room(1),
        bound(line, b).1.has_room(n),
{
    match binding_label(line) {
        Some(label) => {
            lemma_assign_room(b, label, n);
        },
        None => {},
    }
    assert forall|i: int| 0 <= i < b.next.len() implies #[trigger] b.next[i] + 1 <= u32::MAX by {
        assert(b.next[i] + (n + 1) <= u32::MAX);
    }
    if binding_label(line) is None {
        assert forall|i: int| 0 <= i < b.next.len() implies #[trigger] b.next[i] + n <= u32::MAX by {
            assert(b.next[i] + (n + 1) <= u32::MAX);
        }
    }
}

/// Whether the line is neither a directive nor holds a symbolic binding.
pub open spec fn plain(line: Seq<char>) -> bool {
    directive(line) is None && binding_label(line) is None
}

/// The first word after the operation of a directive.
pub open spec fn first_argument(line: Seq<char>) -> Seq<char> {
    match directive(line) {
        Some((w, args)) => word(args),
        None => Seq::empty(),
    }
}

/// The lines as comments, one after the other.
pub open spec fn comments(ls: Seq<Seq<char>>) -> Seq<char>
    decreases ls.len(),
{
    if ls.len() == 0 {
        Seq::empty()
    } else {
        commented(ls[0], None) + comments(ls.skip(1))
    }
}

/// The lines with the definitions applied, each ended by a line feed, one after
/// the other.
pub open spec fn passed(ls: Seq<Seq<char>>, defs: Defines) -> Seq<char>
    decreases ls.len(),
{
    if ls.len() == 0 {
        Seq::empty()
    } else {
        defs.apply(ls[0]).push('\n') + passed(ls.skip(1), defs)
    }
}

/// A pass over two sequences of lines is the pass over the first and then,
/// unless that one stopped, over the second.
pub proof fn lemma_run_concat(st: Resolution, a: Seq<Seq<char>>, b: Seq<Seq<char>>, first: nat)
    ensures
        run(st, a + b, first) == if run(st, a, first).1 is None {
            run(run(st, a, first).0, b, first + a.len())
        } else {
            run(st, a, first)
        },
    decreases a.len(),
{
    if a.len() == 0 {
        assert(a + b == b);
    } else {
        assert((a + b)[0] == a[0]);
        assert((a + b).skip(1) == a.skip(1) + b);
        match step(st, a[0]) {
            None => {},
            Some(next) => {
                lemma_run_concat(next, a.skip(1), b, first + 1);
            },
        }
    }
}

/// A pass over one line is one step.
pub proof fn lemma_run_one(st: Resolution, line: Seq<char>, first: nat)
    requires
        step(st, line) is Some,
    ensures
        run(st, seq![line], first) == (step(st, line)->0, None::<nat>),
{
    let next = step(st, line)->0;
    assert(seq![line][0] == line);
    assert(seq![line].skip(1) == Seq::<Seq<char>>::empty());
    assert(run(next, Seq::<Seq<char>>::empty(), first + 1) == (next, None::<nat>));
}

/// While output is suppressed, lines that are neither directives nor hold a
/// symbolic binding are written as comments, and nothing else changes.
pub proof fn law_suppressed_lines_are_comments(st: Resolution, body: Seq<Seq<char>>, first: nat)
    requires
        st.skip,
        st.depth > 0,
        forall|i: int| 0 <= i < body.len() ==> plain(#[trigger] body[i]),
    ensures
        run(st, body, first) == (
            Resolution { output: st.output + comments(body), ..st },
            None::<nat>,
        ),
    decreases body.len(),
{
    if body.len() == 0 {
        assert(st.output + comments(body) == st.output);
    } else {
        assert(plain(body[0]));
        let next = step(st, body[0])->0;
        assert(next == Resolution { output: st.output + commented(body[0], None), ..st });
        let rest = body.skip(1);
        assert forall|i: int| 0 <= i < rest.len() implies plain(#[trigger] rest[i]) by {
            assert(rest[i] == body[i + 1]);
        }
        law_suppressed_lines_are_comments(next, rest, first + 1);
        assert(next.output + comments(rest) == st.output + comments(body));
    }
}

/// While output is not suppressed, lines that are neither directives nor hold
/// a symbolic binding pass through with the definitions applied, and nothing
/// else changes.
pub proof fn law_active_lines_pass(st: Resolution, body: Seq<Seq<char>>, first: nat)
    requires
        !st.skip,
        forall|i: int| 0 <= i < body.len() ==> plain(#[trigger] body[i]),
    ensures
        run(st, body, first) == (
            Resolution { output: st.output + passed(body, st.defs), ..st },
            None::<nat>,
        ),
    decreases body.len(),
{
    if body.len() == 0 {
        assert(st.output + passed(body, st.defs) == st.output);
    } else {
        assert(plain(body[0]));
        let next = step(st, body[0])->0;
        assert(next == Resolution {
            output: st.output + st.defs.apply(body[0]).push('\n'),
            ..st
        });
        let rest = body.skip(1);
        assert forall|i: int| 0 <= i < rest.len() implies plain(#[trigger] rest[i]) by {
            assert(rest[i] == body[i + 1]);
        }
        law_active_lines_pass(next, rest, first + 1);
        assert(next.output + passed(rest, st.defs) == st.output + passed(body, st.defs));
    }
}

/// An `#ifdef KEY` line, lines that are neither directives nor hold a symbolic
/// binding, and an `#endif` line, met at the top level, where neither
/// directive holds a symbolic binding: the two directives become comments; the
/// lines between become comments where `KEY` is not defined and pass through
/// with the definitions applied where it is. The pass ends at the top level
/// again, with `KEY` recorded and the tables unchanged.
pub proof fn law_ifdef_block(
    st: Resolution,
    opening: Seq<char>,
    body: Seq<Seq<char>>,
    closing: Seq<char>,
    first: nat,
)
    requires
        !st.skip,
        st.depth == 0,
        directive(opening) matches Some((w, args)) && op_of(w) == Op::Ifdef && word(args).len() > 0,
        directive(closing) matches Some((w, args)) && op_of(w) == Op::Endif,
        binding_label(opening) is None,
        binding_label(closing) is None,
        forall|i: int| 0 <= i < body.len() ==> plain(#[trigger] body[i]),
    ensures
        ({
            let key = first_argument(opening);
            let defined = st.defs.contains_key(key);
            let between = if defined {
                passed(body, st.defs)
            } else {
                comments(body)
            };
            run(st, seq![opening] + body + seq![closing], first) == (
                Resolution {
                    encountered: st.encountered.push(key),
                    output: st.output + commented(opening, Some(branch(defined))) + between
                        + commented(closing, None),
                    ..st
                },
                None::<nat>,
            )
        }),
{
    let key = first_argument(opening);
    let defined = st.defs.contains_key(key);
    let one = step(st, opening)->0;
    lemma_run_one(st, opening, first);
    if defined {
        law_active_lines_pass(one, body, first + 1);
    } else {
        law_suppressed_lines_are_comments(one, body, first + 1);
    }
    let two = run(one, body, first + 1).0;
    let three = step(two, closing)->0;
    lemma_run_one(two, closing, first + 1 + body.len());
    lemma_run_concat(st, seq![opening], body, first);
    lemma_run_concat(st, seq![opening] + body, seq![closing], first);
}

/// A pass over lines of which none is an import stops at none of them.
pub proof fn law_pass_without_imports_ends(st: Resolution, ls: Seq<Seq<char>>, first: nat)
    requires
        forall|i: int| 0 <= i < ls.len() ==> import_of(#[trigger] ls[i]) is None,
    ensures
        run(st, ls, first).1 is None,
    decreases ls.len(),
{
    if ls.len() > 0 {
        assert(import_of(ls[0]) is None);
        assert(turn(st, ls[0]) is Some);
        let rest = ls.skip(1);
        assert forall|i: int| 0 <= i < rest.len() implies import_of(#[trigger] rest[i]) is None by {
            assert(rest[i] == ls[i + 1]);
        }
        law_pass_without_imports_ends(step(st, ls[0])->0, rest, first + 1);
    }
}

/// A resolved text, and whether the pass ended inside a suppressed region,
/// which points to an `#ifdef` without its `#endif`.
pub struct Resolved {
    pub source: String,
    pub unclosed_ifdef: bool,
}

/// Whether the depth and the table can count the lines of a text.
pub open spec fn countable(text: Seq<char>, bindings: Bindings) -> bool {
    lines(text).len() <= u32::MAX && bindings.has_room(lines(text).len())
}

/// What the pass from the top level makes of a text, given how it ended.
pub open spec fn resolved_as(
    end: (Resolution, Option<nat>),
    r: Result<Resolved, PreprocessError>,
) -> bool {
    match r {
        Ok(done) => end.1 is None && done.source@ == end.0.output && done.unclosed_ifdef == (
        end.0.depth != 0),
        Err(e) => e matches PreprocessError::UnresolvedImport { line } && end.1 == Some(
            line as nat,
        ),
    }
}

fn resolve_chars(
    text: &Vec<char>,
    defs: &mut DefineTable,
    encountered_ifdef: &mut Vec<String>,
    group_and_binding_for: &mut SymbolicBindingTable,
) -> (r: Result<Resolved, PreprocessError>)
    ensures
        ({
            let end = run(
                start(
                    0,
                    old(defs)@,
                    old(group_and_binding_for)@,
                    names(old(encountered_ifdef)@),
                ),
                lines(text@),
                0,
            );
            if countable(text@, old(group_and_binding_for)@) {
                &&& final(defs)@ == end.0.defs
                &&& final(group_and_binding_for)@ == end.0.bindings
                &&& names(final(encountered_ifdef)@) == end.0.encountered
                &&& resolved_as(end, r)
            } else {
                &&& final(defs)@ == old(defs)@
                &&& final(group_and_binding_for)@ == old(group_and_binding_for)@
                &&& names(final(encountered_ifdef)@) == names(old(encountered_ifdef)@)
                &&& r == Err::<Resolved, PreprocessError>(PreprocessError::TooManyLines)
            }
        }),
{
    let count = split_lines(text).len();
    if count > u32::MAX as usize || !group_and_binding_for.has_room(count as u32) {
        return Err(PreprocessError::TooManyLines);
    }
    let source = string_of(text);
    match preprocess_resolve_ifdefs_implementation(
        source.as_str(),
        defs,
        encountered_ifdef,
        group_and_binding_for,
        0,
    ) {
        Ok((depth, source)) => Ok(Resolved { source, unclosed_ifdef: depth != 0 }),
        Err(e) => Err(e),
    }
}

/// Resolves the conditional directives, the definitions and the symbolic
/// bindings of `src` from the top level.
///
/// A text with more lines than the depth and the table can count is refused,
/// and nothing is changed.
pub fn preprocess_resolve_ifdefs(
    src: &str,
    defs: &mut DefineTable,
    encountered_ifdef: &mut Vec<String>,
    group_and_binding_for: &mut SymbolicBindingTable,
) -> (r: Result<Resolved, PreprocessError>)
    ensures
        ({
            let end = run(
                start(
                    0,
                    old(defs)@,
                    old(group_and_binding_for)@,
                    names(old(encountered_ifdef)@),
                ),
                lines(src@),
                0,
            );
            if countable(src@, old(group_and_binding_for)@) {
                &&& final(defs)@ == end.0.defs
                &&& final(group_and_binding_for)@ == end.0.bindings
                &&& names(final(encountered_ifdef)@) == end.0.encountered
                &&& resolved_as(end, r)
            } else {
                &&& final(defs)@ == old(defs)@
                &&& final(group_and_binding_for)@ == old(group_and_binding_for)@
                &&& names(final(encountered_ifdef)@) == names(old(encountered_ifdef)@)
                &&& r == Err::<Resolved, PreprocessError>(PreprocessError::TooManyLines)
            }
        }),
{
    resolve_chars(&chars_of(src), defs, encountered_ifdef, group_and_binding_for)
}

/// Resolves the imports of `src` and then its conditional directives,
/// definitions and symbolic bindings.
///
/// Under every description of the lookup, the result is what the second pass
/// makes of the expansion of `src`. Whatever the lookup does, the second pass
/// meets no import: it fails only where the expansion has more lines than can
/// be counted.
pub fn fully_preprocess<F: Fn(String) -> Option<String>>(
    src: &str,
    defs: &mut DefineTable,
    get_source_of_file_name: &Option<F>,
    encountered_ifdef: &mut Vec<String>,
    group_and_binding_for: &mut SymbolicBindingTable,
) -> (r: Result<Resolved, PreprocessError>)
    requires
        get_source_of_file_name matches Some(f) ==> forall|name: String|
            call_requires(*f, (name,)),
    ensures
        forall|sources: Option<Sources>| #[trigger]
            describes(sources, *get_source_of_file_name) ==> ({
                let expanded = expand(src@, sources, 0, MAX_RECURSION as nat);
                let end = run(
                    start(
                        0,
                        old(defs)@,
                        old(group_and_binding_for)@,
                        names(old(encountered_ifdef)@),
                    ),
                    lines(expanded),
                    0,
                );
                if countable(expanded, old(group_and_binding_for)@) {
                    &&& final(defs)@ == end.0.defs
                    &&& final(group_and_binding_for)@ == end.0.bindings
                    &&& names(final(encountered_ifdef)@) == end.0.encountered
                    &&& resolved_as(end, r)
                } else {
                    &&& final(defs)@ == old(defs)@
                    &&& final(group_and_binding_for)@ == old(group_and_binding_for)@
                    &&& names(final(encountered_ifdef)@) == names(old(encountered_ifdef)@)
                    &&& r == Err::<Resolved, PreprocessError>(PreprocessError::TooManyLines)
                }
            }),
        r matches Err(e) ==> e == PreprocessError::TooManyLines,
{
    let resolved = preprocess_resolve_imports(src, get_source_of_file_name);
    proof {
        law_pass_without_imports_ends(
            start(0, defs@, group_and_binding_for@, names(encountered_ifdef@)),
            lines(resolved@),
            0,
        );
    }
    preprocess_resolve_ifdefs(
        resolved.as_str(),
        defs,
        encountered_ifdef,
        group_and_binding_for,
    )
}

} // verus!

//! The names that the bindings are given: module names in Pascal case,
//! constant names in upper snake case, and names with an index.

use crate::ir::Module;
use crate::text::{chars_of, decimal, push_all, push_decimal, run, scan, slice, string_of, Stop};
use vstd::prelude::*;

verus! {

/// Whether a character is alphabetic or numeric in the sense of
/// `char::is_alphanumeric`.
pub uninterp spec fn alphanumeric(c: char) -> bool;

/// A text in upper camel case as `heck` makes it.
pub uninterp spec fn pascal_case(s: Seq<char>) -> Seq<char>;

/// A text in upper case as `str::to_uppercase` makes it.
pub uninterp spec fn uppercase(s: Seq<char>) -> Seq<char>;

/// `char::is_alphanumeric`: the result is a function of the character; it is
/// given the name `alphanumeric`.
#[verifier::external_body]
fn is_alphanumeric(c: char) -> (b: bool)
    ensures
        b == alphanumeric(c),
{
    c.is_alphanumeric()
}

/// `heck::ToPascalCase::to_pascal_case` on a string slice: the result is a
/// function of the text; it is given the name `pascal_case`.
#[verifier::external_body]
fn to_pascal_case(s: &str) -> (r: String)
    ensures
        r@ == pascal_case(s@),
{
    heck::ToPascalCase::to_pascal_case(s)
}

/// `case::CaseExt::to_snake` on a string slice: every ASCII upper case letter
/// is replaced by its lower case letter, with an underscore before it unless
/// it is the first character; all other characters stay.
#[verifier::external_body]
fn to_snake(s: &str) -> (r: String)
    ensures
        r@ == snake_case(s@),
{
    case::CaseExt::to_snake(s)
}

/// `str::to_uppercase`: the result is a function of the text; it is given the
/// name `uppercase`.
#[verifier::external_body]
fn to_uppercase(s: &str) -> (r: String)
    ensures
        r@ == uppercase(s@),
{
    s.to_uppercase()
}

/// Whether the character is one of `A` to `Z`.
pub open spec fn is_ascii_upper(c: char) -> bool {
    'A' <= c <= 'Z'
}

/// The lower case letter of an ASCII upper case letter.
pub open spec fn ascii_lower(c: char) -> char {
    ((c as u8) + 32) as char
}

/// A text in snake case: each ASCII upper case letter becomes its lower case
/// letter, after an underscore unless it is the first character.
pub open spec fn snake_case(s: Seq<char>) -> Seq<char>
    decreases s.len(),
{
    if s.len() == 0 {
        s
    } else {
        let before = snake_case(s.drop_last());
        let c = s.last();
        if is_ascii_upper(c) {
            if s.len() > 1 {
                before.push('_').push(ascii_lower(c))
            } else {
                before.push(ascii_lower(c))
            }
        } else {
            before.push(c)
        }
    }
}

/// The characters of a text that are alphanumeric or an underscore.
pub open spec fn sanitized(s: Seq<char>) -> Seq<char>
    decreases s.len(),
{
    if s.len() == 0 {
        s
    } else if alphanumeric(s.last()) || s.last() == '_' {
        sanitized(s.drop_last()).push(s.last())
    } else {
        sanitized(s.drop_last())
    }
}

fn sanitize(v: &str) -> (r: String)
    ensures
        r@ == sanitized(v@),
{
    let chars = chars_of(v);
    let mut kept: Vec<char> = Vec::new();
    let mut i: usize = 0;
    while i < chars.len()
        invariant
            i <= chars.len(),
            kept@ == sanitized(chars@.take(i as int)),
        decreases chars.len() - i,
    {
        proof {
            assert(chars@.take(i + 1).drop_last() == chars@.take(i as int));
            assert(chars@.take(i + 1).last() == chars@[i as int]);
        }
        let c = chars[i];
        if is_alphanumeric(c) || c == '_' {
            kept.push(c);
        }
        i += 1;
    }
    assert(chars@.take(chars@.len() as int) == chars@);
    string_of(&kept)
}

/// The alphanumeric characters and underscores of `v`, in upper camel case.
pub fn sanitize_and_pascal_case(v: &str) -> (r: String)
    ensures
        r@ == pascal_case(sanitized(v@)),
{
    let kept = sanitize(v);
    to_pascal_case(kept.as_str())
}

/// The alphanumeric characters and underscores of `v`, in snake case and then
/// in upper case.
pub fn sanitized_upper_snake_case(v: &str) -> (r: String)
    ensures
        r@ == uppercase(snake_case(sanitized(v@))),
{
    let kept = sanitize(v);
    let snake = to_snake(kept.as_str());
    to_uppercase(snake.as_str())
}

/// `name` followed by `index` in decimal.
pub fn indexed_name(name: &str, index: u32) -> (r: String)
    ensures
        r@ == name@ + decimal(index as nat),
{
    let mut out = chars_of(name);
    push_decimal(&mut out, index);
    string_of(&out)
}

/// The name of the module of a shader file: the stem of the file's name up to
/// its first dot.
pub fn module_name(file_stem: &str) -> (r: String)
    ensures
        r@ == file_stem@.take(run(file_stem@, Stop::Char('.')) as int),
{
    let chars = chars_of(file_stem);
    assert(chars@.skip(0) == chars@);
    let end = scan(&chars, 0, Stop::Char('.'));
    string_of(&slice(&chars, 0, end))
}

/// The comment at the head of a generated file, which names the generator and
/// its version.
pub open spec fn header_of(name: Seq<char>, version: Seq<char>) -> Seq<char> {
    "\n/* \n   NOTE: This file was automatically generated by "@ + name + " version "@ + version
        + "\n\n         Changes made to this file will not be saved.\n*/\n\n"@
}

/// The comment at the head of a generated file.
pub fn header_texts(name: &str, version: &str) -> (r: String)
    ensures
        r@ == header_of(name@, version@),
{
    let mut out = chars_of("\n/* \n   NOTE: This file was automatically generated by ");
    push_all(&mut out, &chars_of(name));
    push_all(&mut out, &chars_of(" version "));
    push_all(&mut out, &chars_of(version));
    push_all(
        &mut out,
        &chars_of("\n\n         Changes made to this file will not be saved.\n*/\n\n"),
    );
    string_of(&out)
}

/// The name of the parameter that gives the step mode of a vertex input: the
/// name of the input's struct in snake case.
pub fn step_mode_name(struct_name: &str) -> (r: String)
    ensures
        r@ == snake_case(struct_name@),
{
    to_snake(struct_name)
}

/// The name of the constant that holds the name of an entry point.
pub open spec fn entry_constant_name(name: Seq<char>) -> Seq<char> {
    "ENTRY_"@ + uppercase(name)
}

/// For each entry point of the module, the name of its constant and the name
/// of the entry point, which is the constant's value.
pub fn entry_point_constants(module: &Module) -> (r: Vec<(String, String)>)
    ensures
        r@.len() == module.entry_points@.len(),
        forall|i: int|
            0 <= i < r@.len() ==> (#[trigger] r@[i]).0@ == entry_constant_name(
                module.entry_points@[i].name@,
            ) && r@[i].1@ == module.entry_points@[i].name@,
{
    let mut r: Vec<(String, String)> = Vec::new();
    let mut i: usize = 0;
    while i < module.entry_points.len()
        invariant
            i <= module.entry_points.len(),
            r@.len() == i,
            forall|k: int|
                0 <= k < i ==> (#[trigger] r@[k]).0@ == entry_constant_name(
                    module.entry_points@[k].name@,
                ) && r@[k].1@ == module.entry_points@[k].name@,
        decreases module.entry_points.len() - i,
    {
        let name = &module.entry_points[i].name;
        let upper = to_uppercase(name.as_str());
        let mut constant = chars_of("ENTRY_");
        push_all(&mut constant, &chars_of(upper.as_str()));
        r.push((string_of(&constant), name.clone()));
        i += 1;
    }
    r
}

} // verus!

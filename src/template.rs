//! Templates with `{...}` placeholders filled from a list of arguments.
//!
//! A placeholder is `{` [argument] [`:` [[fill] align] [width] [radix]] `}`:
//! the argument is a decimal index, a name, or nothing (the next positional
//! argument); align is `<` or `>`; the width is a decimal number, or an index
//! or a name followed by `$` that picks the argument holding the width; the
//! radix is `b`, `o`, `x` or `X`. `{{` and `}}` stand for `{` and `}`.
use vstd::prelude::*;
use crate::pad::{Align, pad, pad_spec};
use crate::radix::{Radix, parse_chars, parse_spec};
use crate::text::{chars_of, string_of};
use crate::value::{Value, default_align, display_chars, display_spec, int_of, integer_of};

verus! {

/// An argument of a template, optionally named.
#[derive(Clone, Debug)]
pub struct Arg {
    pub name: Option<Vec<char>>,
    pub value: Value,
}

impl Arg {
    /// An argument reached by its position only.
    pub fn positional(value: Value) -> (a: Arg)
        ensures
            a.name is None,
            a.value == value,
    {
        Arg { name: None, value }
    }

    /// An argument that placeholders can also reach by `name`.
    pub fn named(name: &str, value: Value) -> (a: Arg)
        ensures
            a.name matches Some(n) && n@ == name@,
            a.value == value,
    {
        Arg { name: Some(chars_of(name)), value }
    }
}

/// Why a template could not be rendered.
#[derive(Clone, Copy, Debug, PartialEq, Eq, Structural)]
pub enum RenderError {
    /// A placeholder does not follow the placeholder syntax.
    BadPlaceholder,
    /// A `}` that closes no placeholder and is not doubled.
    UnmatchedBrace,
    /// A placeholder refers to an index or a name that no argument has.
    UnknownArgument,
    /// The argument that gives a width is not an integer that fits `usize`.
    BadWidth,
    /// A radix was asked of a value that is not an integer.
    RadixOnNonInteger,
}

/// How a placeholder picks its argument; a name is the template's characters
/// from `start` up to `end`.
#[derive(Clone, Copy, Debug, PartialEq, Eq, Structural)]
pub enum ArgRef {
    Next,
    Index(usize),
    Name(usize, usize),
}

/// The width of a placeholder's field.
#[derive(Clone, Copy, Debug, PartialEq, Eq, Structural)]
pub enum Width {
    Absent,
    Literal(usize),
    FromArg(ArgRef),
}

/// A parsed placeholder; `end` is the position just after its `}`.
#[derive(Clone, Copy, Debug, PartialEq, Eq, Structural)]
pub struct Placeholder {
    pub arg: ArgRef,
    pub fill: char,
    pub align: Option<Align>,
    pub width: Width,
    pub radix: Radix,
    pub end: usize,
}

pub open spec fn is_digit(c: char) -> bool {
    '0' <= c && c <= '9'
}

pub open spec fn is_ident_start(c: char) -> bool {
    ('a' <= c && c <= 'z') || ('A' <= c && c <= 'Z') || c == '_'
}

pub open spec fn is_ident_char(c: char) -> bool {
    is_ident_start(c) || is_digit(c)
}

/// The end of the run of decimal digits that starts at `i`.
pub open spec fn digits_end(t: Seq<char>, i: int) -> int
    decreases t.len() - i,
{
    if 0 <= i < t.len() && is_digit(t[i]) { digits_end(t, i + 1) } else { i }
}

/// The end of the run of identifier characters that starts at `i`.
pub open spec fn ident_end(t: Seq<char>, i: int) -> int
    decreases t.len() - i,
{
    if 0 <= i < t.len() && is_ident_char(t[i]) { ident_end(t, i + 1) } else { i }
}

/// The number that the digits `t[i..j]` denote, if it fits `usize`.
pub open spec fn number_at(t: Seq<char>, i: int, j: int) -> Option<usize> {
    match parse_spec(t.subrange(i, j), Radix::Decimal) {
        Some(v) => if 0 <= v <= usize::MAX { Some(v as usize) } else { None },
        None => None,
    }
}

/// The argument selector that starts at `i`, and where it ends.
pub open spec fn arg_ref_at(t: Seq<char>, i: int) -> Option<(ArgRef, int)> {
    if 0 <= i < t.len() && is_digit(t[i]) {
        let j = digits_end(t, i);
        match number_at(t, i, j) {
            Some(n) => Some((ArgRef::Index(n), j)),
            None => None,
        }
    } else if 0 <= i < t.len() && is_ident_start(t[i]) {
        let j = ident_end(t, i);
        Some((ArgRef::Name(i as usize, j as usize), j))
    } else {
        Some((ArgRef::Next, i))
    }
}

pub open spec fn align_of(c: char) -> Option<Align> {
    if c == '<' {
        Some(Align::Left)
    } else if c == '>' {
        Some(Align::Right)
    } else {
        None
    }
}

pub open spec fn radix_of(c: char) -> Option<Radix> {
    if c == 'b' {
        Some(Radix::Binary)
    } else if c == 'o' {
        Some(Radix::Octal)
    } else if c == 'x' {
        Some(Radix::LowerHex)
    } else if c == 'X' {
        Some(Radix::UpperHex)
    } else {
        None
    }
}

/// Fill and alignment at `k`, and where they end.
pub open spec fn fill_align_at(t: Seq<char>, k: int) -> (char, Option<Align>, int) {
    if 0 <= k && k + 1 < t.len() && align_of(t[k + 1]) is Some {
        (t[k], align_of(t[k + 1]), k + 2)
    } else if 0 <= k < t.len() && align_of(t[k]) is Some {
        (' ', align_of(t[k]), k + 1)
    } else {
        (' ', None, k)
    }
}

/// The width at `k`, and where it ends; an identifier not followed by `$` is
/// no width.
pub open spec fn width_at(t: Seq<char>, k: int) -> Option<(Width, int)> {
    if 0 <= k < t.len() && is_digit(t[k]) {
        let j = digits_end(t, k);
        match number_at(t, k, j) {
            None => None,
            Some(n) => if j < t.len() && t[j] == '$' {
                Some((Width::FromArg(ArgRef::Index(n)), j + 1))
            } else {
                Some((Width::Literal(n), j))
            },
        }
    } else if 0 <= k < t.len() && is_ident_start(t[k]) && ident_end(t, k) < t.len()
        && t[ident_end(t, k)] == '$' {
        let j = ident_end(t, k);
        Some((Width::FromArg(ArgRef::Name(k as usize, j as usize)), j + 1))
    } else {
        Some((Width::Absent, k))
    }
}

/// The placeholder whose text starts at `i`, just after its `{`.
pub open spec fn placeholder_at(t: Seq<char>, i: int) -> Option<Placeholder> {
    match arg_ref_at(t, i) {
        None => None,
        Some((arg, j)) => if j < t.len() && t[j] == '}' {
            Some(
                Placeholder {
                    arg,
                    fill: ' ',
                    align: None,
                    width: Width::Absent,
                    radix: Radix::Decimal,
                    end: (j + 1) as usize,
                },
            )
        } else if j < t.len() && t[j] == ':' {
            let (fill, align, k) = fill_align_at(t, j + 1);
            match width_at(t, k) {
                None => None,
                Some((width, m)) => {
                    let (radix, e) = if m < t.len() && radix_of(t[m]) is Some {
                        (radix_of(t[m]).unwrap(), m + 1)
                    } else {
                        (Radix::Decimal, m)
                    };
                    if e < t.len() && t[e] == '}' {
                        Some(Placeholder { arg, fill, align, width, radix, end: (e + 1) as usize })
                    } else {
                        None
                    }
                },
            }
        } else {
            None
        },
    }
}

/// The first argument, from `k` on, that is named `name`.
pub open spec fn find_name(args: Seq<Arg>, name: Seq<char>, k: int) -> Option<int>
    decreases args.len() - k,
{
    if k < 0 || k >= args.len() {
        None
    } else if args[k].name matches Some(n) && n@ == name {
        Some(k)
    } else {
        find_name(args, name, k + 1)
    }
}

/// The position of the argument that `r` picks; `next` is the position the
/// next `{}` takes.
pub open spec fn resolve(t: Seq<char>, args: Seq<Arg>, r: ArgRef, next: nat) -> Option<int> {
    match r {
        ArgRef::Next => if next < args.len() { Some(next as int) } else { None },
        ArgRef::Index(n) => if n < args.len() { Some(n as int) } else { None },
        ArgRef::Name(s, e) => find_name(args, t.subrange(s as int, e as int), 0),
    }
}

/// The width that `w` gives.
pub open spec fn width_value(t: Seq<char>, args: Seq<Arg>, w: Width, next: nat) -> Result<nat, RenderError> {
    match w {
        Width::Absent => Ok(0),
        Width::Literal(n) => Ok(n as nat),
        Width::FromArg(r) => match resolve(t, args, r, next) {
            None => Err(RenderError::UnknownArgument),
            Some(k) => match int_of(args[k].value) {
                Some(n) => if 0 <= n <= usize::MAX { Ok(n as nat) } else { Err(RenderError::BadWidth) },
                None => Err(RenderError::BadWidth),
            },
        },
    }
}

/// The text that placeholder `p` stands for.
pub open spec fn field(t: Seq<char>, args: Seq<Arg>, p: Placeholder, next: nat) -> Result<Seq<char>, RenderError> {
    match resolve(t, args, p.arg, next) {
        None => Err(RenderError::UnknownArgument),
        Some(k) => match width_value(t, args, p.width, next) {
            Err(e) => Err(e),
            Ok(w) => match display_spec(args[k].value, p.radix) {
                None => Err(RenderError::RadixOnNonInteger),
                Some(s) => {
                    let align = match p.align {
                        Some(a) => a,
                        None => default_align(args[k].value),
                    };
                    Ok(pad_spec(s, w, p.fill, align))
                },
            },
        },
    }
}

/// The position the next `{}` takes after placeholder `p`.
pub open spec fn next_after(p: Placeholder, next: nat) -> nat {
    if p.arg == ArgRef::Next { next + 1 } else { next }
}

pub open spec fn prepend(c: char, r: Result<Seq<char>, RenderError>) -> Result<Seq<char>, RenderError> {
    match r {
        Ok(s) => Ok(seq![c] + s),
        Err(e) => Err(e),
    }
}

/// The rendering of the template from position `i` on.
pub open spec fn render_from(t: Seq<char>, args: Seq<Arg>, i: int, next: nat) -> Result<Seq<char>, RenderError>
    decreases t.len() - i,
{
    if i < 0 || i >= t.len() {
        Ok(Seq::empty())
    } else if t[i] == '{' {
        if i + 1 < t.len() && t[i + 1] == '{' {
            prepend('{', render_from(t, args, i + 2, next))
        } else {
            match placeholder_at(t, i + 1) {
                None => Err(RenderError::BadPlaceholder),
                Some(p) => if (p.end as int) <= i || (p.end as int) > t.len() {
                    Err(RenderError::BadPlaceholder)
                } else {
                    let stop = p.end as int;
                    match field(t, args, p, next) {
                        Err(e) => Err(e),
                        Ok(piece) => match render_from(t, args, stop, next_after(p, next)) {
                            Err(e) => Err(e),
                            Ok(rest) => Ok(piece + rest),
                        },
                    }
                },
            }
        }
    } else if t[i] == '}' {
        if i + 1 < t.len() && t[i + 1] == '}' {
            prepend('}', render_from(t, args, i + 2, next))
        } else {
            Err(RenderError::UnmatchedBrace)
        }
    } else {
        prepend(t[i], render_from(t, args, i + 1, next))
    }
}

/// The template `t` with every placeholder replaced by its argument's text,
/// or the first error met from left to right.
pub open spec fn rendered(t: Seq<char>, args: Seq<Arg>) -> Result<Seq<char>, RenderError> {
    render_from(t, args, 0, 0)
}

fn char_is_digit(c: char) -> (r: bool)
    ensures
        r == is_digit(c),
{
    '0' <= c && c <= '9'
}

fn char_is_ident_start(c: char) -> (r: bool)
    ensures
        r == is_ident_start(c),
{
    ('a' <= c && c <= 'z') || ('A' <= c && c <= 'Z') || c == '_'
}

fn scan_digits(t: &Vec<char>, i: usize) -> (j: usize)
    requires
        i <= t@.len(),
    ensures
        j == digits_end(t@, i as int),
        i <= j <= t@.len(),
{
    let mut j = i;
    while j < t.len() && char_is_digit(t[j])
        invariant
            i <= j <= t@.len(),
            digits_end(t@, i as int) == digits_end(t@, j as int),
        decreases t.len() - j,
    {
        j = j + 1;
    }
    j
}

fn scan_ident(t: &Vec<char>, i: usize) -> (j: usize)
    requires
        i <= t@.len(),
    ensures
        j == ident_end(t@, i as int),
        i <= j <= t@.len(),
{
    let mut j = i;
    while j < t.len() && (char_is_ident_start(t[j]) || char_is_digit(t[j]))
        invariant
            i <= j <= t@.len(),
            ident_end(t@, i as int) == ident_end(t@, j as int),
        decreases t.len() - j,
    {
        j = j + 1;
    }
    j
}

/// A copy of `t[i..j]`.
fn slice_chars(t: &Vec<char>, i: usize, j: usize) -> (r: Vec<char>)
    requires
        i <= j <= t@.len(),
    ensures
        r@ == t@.subrange(i as int, j as int),
{
    let mut r: Vec<char> = Vec::new();
    let mut k = i;
    while k < j
        invariant
            i <= k <= j <= t@.len(),
            r@ == t@.subrange(i as int, k as int),
        decreases j - k,
    {
        r.push(t[k]);
        k = k + 1;
        assert(r@ =~= t@.subrange(i as int, k as int));
    }
    r
}

fn read_number(t: &Vec<char>, i: usize, j: usize) -> (r: Option<usize>)
    requires
        i <= j <= t@.len(),
    ensures
        r == number_at(t@, i as int, j as int),
{
    match parse_chars(&slice_chars(t, i, j), Radix::Decimal) {
        Some(v) => if 0 <= v && v <= usize::MAX as i128 { Some(v as usize) } else { None },
        None => None,
    }
}

fn read_arg_ref(t: &Vec<char>, i: usize) -> (r: Option<(ArgRef, usize)>)
    requires
        i <= t@.len(),
    ensures
        r matches Some((a, j)) ==> arg_ref_at(t@, i as int) == Some((a, j as int)) && i <= j <= t@.len(),
        r matches Some((ArgRef::Name(s, e), _)) ==> s <= e <= t@.len(),
        r is None ==> arg_ref_at(t@, i as int) is None,
{
    if i < t.len() && char_is_digit(t[i]) {
        let j = scan_digits(t, i);
        match read_number(t, i, j) {
            Some(n) => Some((ArgRef::Index(n), j)),
            None => None,
        }
    } else if i < t.len() && char_is_ident_start(t[i]) {
        let j = scan_ident(t, i);
        Some((ArgRef::Name(i, j), j))
    } else {
        Some((ArgRef::Next, i))
    }
}

fn char_align(c: char) -> (r: Option<Align>)
    ensures
        r == align_of(c),
{
    if c == '<' {
        Some(Align::Left)
    } else if c == '>' {
        Some(Align::Right)
    } else {
        None
    }
}

fn char_radix(c: char) -> (r: Option<Radix>)
    ensures
        r == radix_of(c),
{
    if c == 'b' {
        Some(Radix::Binary)
    } else if c == 'o' {
        Some(Radix::Octal)
    } else if c == 'x' {
        Some(Radix::LowerHex)
    } else if c == 'X' {
        Some(Radix::UpperHex)
    } else {
        None
    }
}

fn read_fill_align(t: &Vec<char>, k: usize) -> (r: (char, Option<Align>, usize))
    requires
        k <= t@.len(),
    ensures
        (r.0, r.1, r.2 as int) == fill_align_at(t@, k as int),
        k <= r.2 <= t@.len(),
{
    if k < t.len() && k + 1 < t.len() && char_align(t[k + 1]).is_some() {
        (t[k], char_align(t[k + 1]), k + 2)
    } else if k < t.len() && char_align(t[k]).is_some() {
        (' ', char_align(t[k]), k + 1)
    } else {
        (' ', None, k)
    }
}

fn read_width(t: &Vec<char>, k: usize) -> (r: Option<(Width, usize)>)
    requires
        k <= t@.len(),
    ensures
        r matches Some((w, j)) ==> width_at(t@, k as int) == Some((w, j as int)) && k <= j <= t@.len(),
        r matches Some((Width::FromArg(ArgRef::Name(s, e)), _)) ==> s <= e <= t@.len(),
        r is None ==> width_at(t@, k as int) is None,
{
    if k < t.len() && char_is_digit(t[k]) {
        let j = scan_digits(t, k);
        match read_number(t, k, j) {
            None => None,
            Some(n) => if j < t.len() && t[j] == '$' {
                Some((Width::FromArg(ArgRef::Index(n)), j + 1))
            } else {
                Some((Width::Literal(n), j))
            },
        }
    } else if k < t.len() && char_is_ident_start(t[k]) {
        let j = scan_ident(t, k);
        if j < t.len() && t[j] == '$' {
            Some((Width::FromArg(ArgRef::Name(k, j)), j + 1))
        } else {
            Some((Width::Absent, k))
        }
    } else {
        Some((Width::Absent, k))
    }
}

/// The placeholder whose text starts at `i`, just after its `{`.
pub fn parse_placeholder(t: &Vec<char>, i: usize) -> (r: Option<Placeholder>)
    requires
        i <= t@.len(),
    ensures
        r == placeholder_at(t@, i as int),
        r matches Some(p) ==> i < p.end <= t@.len() && refs_in(p, t@.len()),
{
    let (arg, j) = match read_arg_ref(t, i) {
        None => return None,
        Some(x) => x,
    };
    if j < t.len() && t[j] == '}' {
        Some(
            Placeholder {
                arg,
                fill: ' ',
                align: None,
                width: Width::Absent,
                radix: Radix::Decimal,
                end: j + 1,
            },
        )
    } else if j < t.len() && t[j] == ':' {
        let (fill, align, k) = read_fill_align(t, j + 1);
        match read_width(t, k) {
            None => None,
            Some((width, m)) => {
                let (radix, e) = match if m < t.len() { char_radix(t[m]) } else { None } {
                    Some(r) => (r, m + 1),
                    None => (Radix::Decimal, m),
                };
                if e < t.len() && t[e] == '}' {
                    Some(Placeholder { arg, fill, align, width, radix, end: e + 1 })
                } else {
                    None
                }
            },
        }
    } else {
        None
    }
}

/// Whether `name` is the text `t[s..e]`.
fn name_is(name: &Vec<char>, t: &Vec<char>, s: usize, e: usize) -> (r: bool)
    requires
        s <= e <= t@.len(),
    ensures
        r == (name@ == t@.subrange(s as int, e as int)),
{
    if name.len() != e - s {
        return false;
    }
    let mut k: usize = 0;
    while k < name.len()
        invariant
            name@.len() == e - s,
            s <= e <= t@.len(),
            k <= name@.len(),
            forall|m: int| 0 <= m < k ==> name@[m] == t@[s + m],
        decreases name.len() - k,
    {
        if name[k] != t[s + k] {
            assert(name@[k as int] != t@.subrange(s as int, e as int)[k as int]);
            return false;
        }
        k = k + 1;
    }
    assert(name@ =~= t@.subrange(s as int, e as int));
    true
}

fn find_arg(args: &Vec<Arg>, t: &Vec<char>, s: usize, e: usize) -> (r: Option<usize>)
    requires
        s <= e <= t@.len(),
    ensures
        r matches Some(k) ==> find_name(args@, t@.subrange(s as int, e as int), 0) == Some(k as int),
        r is None ==> find_name(args@, t@.subrange(s as int, e as int), 0) is None,
{
    let ghost name = t@.subrange(s as int, e as int);
    let mut k: usize = 0;
    while k < args.len()
        invariant
            k <= args@.len(),
            s <= e <= t@.len(),
            name == t@.subrange(s as int, e as int),
            find_name(args@, name, 0) == find_name(args@, name, k as int),
        decreases args.len() - k,
    {
        let found = match &args[k].name {
            Some(n) => name_is(n, t, s, e),
            None => false,
        };
        if found {
            return Some(k);
        }
        k = k + 1;
    }
    None
}

fn resolve_arg(t: &Vec<char>, args: &Vec<Arg>, r: ArgRef, next: usize) -> (k: Option<usize>)
    requires
        r matches ArgRef::Name(s, e) ==> s <= e <= t@.len(),
    ensures
        k matches Some(x) ==> resolve(t@, args@, r, next as nat) == Some(x as int) && x < args@.len(),
        k is None ==> resolve(t@, args@, r, next as nat) is None,
{
    match r {
        ArgRef::Next => if next < args.len() { Some(next) } else { None },
        ArgRef::Index(n) => if n < args.len() { Some(n) } else { None },
        ArgRef::Name(s, e) => {
            let k = find_arg(args, t, s, e);
            proof {
                if k is Some {
                    lemma_find_name_in_range(args@, t@.subrange(s as int, e as int), 0);
                }
            }
            k
        },
    }
}

proof fn lemma_find_name_in_range(args: Seq<Arg>, name: Seq<char>, k: int)
    ensures
        find_name(args, name, k) matches Some(x) ==> k <= x < args.len(),
    decreases args.len() - k,
{
    if 0 <= k < args.len() {
        lemma_find_name_in_range(args, name, k + 1);
    }
}

/// Whether every name that `p` holds lies inside `t`.
pub open spec fn refs_in(p: Placeholder, len: nat) -> bool {
    &&& (p.arg matches ArgRef::Name(s, e) ==> s <= e <= len)
    &&& (p.width matches Width::FromArg(ArgRef::Name(s, e)) ==> s <= e <= len)
}

fn width_of(t: &Vec<char>, args: &Vec<Arg>, w: Width, next: usize) -> (r: Result<usize, RenderError>)
    requires
        w matches Width::FromArg(ArgRef::Name(s, e)) ==> s <= e <= t@.len(),
    ensures
        r matches Ok(n) ==> width_value(t@, args@, w, next as nat) == Ok::<nat, RenderError>(n as nat),
        r matches Err(e) ==> width_value(t@, args@, w, next as nat) == Err::<nat, RenderError>(e),
{
    match w {
        Width::Absent => Ok(0),
        Width::Literal(n) => Ok(n),
        Width::FromArg(r) => match resolve_arg(t, args, r, next) {
            None => Err(RenderError::UnknownArgument),
            Some(k) => match integer_of(&args[k].value) {
                Some(n) => if 0 <= n && n <= usize::MAX as i128 {
                    Ok(n as usize)
                } else {
                    Err(RenderError::BadWidth)
                },
                None => Err(RenderError::BadWidth),
            },
        },
    }
}

fn render_field(t: &Vec<char>, args: &Vec<Arg>, p: Placeholder, next: usize) -> (r: Result<Vec<char>, RenderError>)
    requires
        refs_in(p, t@.len()),
    ensures
        r matches Ok(s) ==> field(t@, args@, p, next as nat) == Ok::<Seq<char>, RenderError>(s@),
        r matches Err(e) ==> field(t@, args@, p, next as nat) == Err::<Seq<char>, RenderError>(e),
{
    let k = match resolve_arg(t, args, p.arg, next) {
        None => return Err(RenderError::UnknownArgument),
        Some(k) => k,
    };
    let w = match width_of(t, args, p.width, next) {
        Err(e) => return Err(e),
        Ok(w) => w,
    };
    let shown = match display_chars(&args[k].value, p.radix) {
        None => return Err(RenderError::RadixOnNonInteger),
        Some(s) => s,
    };
    let align = match p.align {
        Some(a) => a,
        None => if integer_of(&args[k].value).is_some() { Align::Right } else { Align::Left },
    };
    Ok(pad(&shown, w, p.fill, align))
}

pub open spec fn after(acc: Seq<char>, r: Result<Seq<char>, RenderError>) -> Result<Seq<char>, RenderError> {
    match r {
        Ok(s) => Ok(acc + s),
        Err(e) => Err(e),
    }
}

proof fn lemma_after_prepend(acc: Seq<char>, c: char, r: Result<Seq<char>, RenderError>)
    ensures
        after(acc, prepend(c, r)) == after(acc.push(c), r),
{
    if r is Ok {
        assert(acc + (seq![c] + r->Ok_0) =~= acc.push(c) + r->Ok_0);
    }
}

/// Appends the text of the placeholder that opens at `i`, and gives the
/// position after it and the next positional index.
fn emit_placeholder(t: &Vec<char>, args: &Vec<Arg>, i: usize, next: usize, out: &mut Vec<char>)
    -> (r: Result<(usize, usize), RenderError>)
    requires
        i < t@.len(),
        t@[i as int] == '{',
        !(i + 1 < t@.len() && t@[i + 1] == '{'),
        next <= i,
    ensures
        r matches Ok((j, n)) ==> i < j <= t@.len() && n <= j && after(old(out)@, render_from(t@, args@, i as int, next as nat))
            == after(final(out)@, render_from(t@, args@, j as int, n as nat)),
        r matches Err(e) ==> render_from(t@, args@, i as int, next as nat) == Err::<Seq<char>, RenderError>(e),
{
    let len = t.len();
    assert(i + 1 <= len);
    let p = match parse_placeholder(t, i + 1) {
        None => return Err(RenderError::BadPlaceholder),
        Some(p) => p,
    };
    let piece = match render_field(t, args, p, next) {
        Err(e) => return Err(e),
        Ok(s) => s,
    };
    let ghost before = out@;
    let mut k: usize = 0;
    while k < piece.len()
        invariant
            k <= piece@.len(),
            out@ == before + piece@.take(k as int),
        decreases piece.len() - k,
    {
        out.push(piece[k]);
        k = k + 1;
        assert(out@ =~= before + piece@.take(k as int));
    }
    assert(piece@.take(piece@.len() as int) =~= piece@);
    let n = if p.arg == ArgRef::Next { next + 1 } else { next };
    proof {
        let rest = render_from(t@, args@, p.end as int, n as nat);
        if rest is Ok {
            assert(before + (piece@ + rest->Ok_0) =~= out@ + rest->Ok_0);
        }
    }
    Ok((p.end, n))
}

/// The template `t` with its placeholders filled from `args`.
pub fn render_chars(t: &Vec<char>, args: &Vec<Arg>) -> (r: Result<Vec<char>, RenderError>)
    ensures
        r matches Ok(s) ==> rendered(t@, args@) == Ok::<Seq<char>, RenderError>(s@),
        r matches Err(e) ==> rendered(t@, args@) == Err::<Seq<char>, RenderError>(e),
{
    let mut out: Vec<char> = Vec::new();
    let mut i: usize = 0;
    let mut next: usize = 0;
    while i < t.len()
        invariant
            i <= t@.len(),
            next <= i,
            rendered(t@, args@) == after(out@, render_from(t@, args@, i as int, next as nat)),
        decreases t.len() - i,
    {
        let c = t[i];
        let ghost acc = out@;
        if c == '{' && i + 1 < t.len() && t[i + 1] == '{' {
            proof {
                lemma_after_prepend(acc, '{', render_from(t@, args@, i + 2, next as nat));
            }
            out.push('{');
            i = i + 2;
        } else if c == '{' {
            match emit_placeholder(t, args, i, next, &mut out) {
                Err(e) => return Err(e),
                Ok((j, n)) => {
                    i = j;
                    next = n;
                },
            }
        } else if c == '}' && i + 1 < t.len() && t[i + 1] == '}' {
            proof {
                lemma_after_prepend(acc, '}', render_from(t@, args@, i + 2, next as nat));
            }
            out.push('}');
            i = i + 2;
        } else if c == '}' {
            return Err(RenderError::UnmatchedBrace);
        } else {
            proof {
                lemma_after_prepend(acc, c, render_from(t@, args@, i + 1, next as nat));
            }
            out.push(c);
            i = i + 1;
        }
    }
    Ok(out)
}

/// The template `template` with its placeholders filled from `args`, or the
/// first error met from left to right.
pub fn render(template: &str, args: &Vec<Arg>) -> (r: Result<String, RenderError>)
    ensures
        r matches Ok(s) ==> rendered(template@, args@) == Ok::<Seq<char>, RenderError>(s@),
        r matches Err(e) ==> rendered(template@, args@) == Err::<Seq<char>, RenderError>(e),
{
    match render_chars(&chars_of(template), args) {
        Ok(s) => Ok(string_of(&s)),
        Err(e) => Err(e),
    }
}

} // verus!

//! Padding a rendered value to a minimum width.
use vstd::prelude::*;

verus! {

/// Where a value sits inside its padded field.
#[derive(Clone, Copy, Debug, PartialEq, Eq, Structural)]
pub enum Align {
    /// Value first, fill after it (`<`).
    Left,
    /// Fill first, value after it (`>`).
    Right,
}

/// `n` copies of `c`.
pub open spec fn repeat(c: char, n: nat) -> Seq<char> {
    Seq::new(n, |i: int| c)
}

/// `s` padded with `fill` to at least `width` characters; `s` itself when it
/// is already that long.
pub open spec fn pad_spec(s: Seq<char>, width: nat, fill: char, align: Align) -> Seq<char> {
    if s.len() >= width {
        s
    } else {
        match align {
            Align::Left => s + repeat(fill, (width - s.len()) as nat),
            Align::Right => repeat(fill, (width - s.len()) as nat) + s,
        }
    }
}

/// `s` padded with `fill` to at least `width` characters, placed as `align`
/// says.
pub fn pad(s: &Vec<char>, width: usize, fill: char, align: Align) -> (r: Vec<char>)
    ensures
        r@ == pad_spec(s@, width as nat, fill, align),
{
    if s.len() >= width {
        return s.clone();
    }
    let n = width - s.len();
    let mut r: Vec<char> = Vec::new();
    if align == Align::Left {
        r = s.clone();
    }
    let ghost before = r@;
    let mut i: usize = 0;
    while i < n
        invariant
            i <= n,
            r@ == before + repeat(fill, i as nat),
        decreases n - i,
    {
        r.push(fill);
        i = i + 1;
        assert(r@ =~= before + repeat(fill, i as nat));
    }
    if align == Align::Right {
        let mut j: usize = 0;
        let ghost filled = r@;
        while j < s.len()
            invariant
                j <= s@.len(),
                r@ == filled + s@.take(j as int),
            decreases s.len() - j,
        {
            r.push(s[j]);
            j = j + 1;
            assert(r@ =~= filled + s@.take(j as int));
        }
        assert(s@.take(s@.len() as int) =~= s@);
    }
    proof {
        assert(before =~= (if align == Align::Left { s@ } else { Seq::<char>::empty() }));
        assert(r@ =~= pad_spec(s@, width as nat, fill, align));
    }
    r
}

/// When the width is at least the value's length, the padded text is exactly
/// `width` long and is the value plus `width - len` fill characters, the
/// value first for left alignment and last for right alignment.
pub proof fn lemma_pad_shape(s: Seq<char>, width: nat, fill: char, align: Align)
    requires
        width >= s.len(),
    ensures
        pad_spec(s, width, fill, align).len() == width,
        align == Align::Left ==> pad_spec(s, width, fill, align).take(s.len() as int) == s,
        align == Align::Left ==> forall|i: int|
            s.len() <= i < width ==> #[trigger] pad_spec(s, width, fill, align)[i] == fill,
        align == Align::Right ==> pad_spec(s, width, fill, align).skip(width - s.len()) == s,
        align == Align::Right ==> forall|i: int|
            0 <= i < width - s.len() ==> #[trigger] pad_spec(s, width, fill, align)[i] == fill,
{
    let p = pad_spec(s, width, fill, align);
    if align == Align::Left {
        assert(p.take(s.len() as int) =~= s);
    } else {
        assert(p.skip(width - s.len()) =~= s);
    }
}

} // verus!

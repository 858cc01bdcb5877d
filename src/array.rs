//! A line that lists the elements of an array.
use vstd::prelude::*;
use crate::radix::{Radix, render_chars, render_spec};
use crate::text::string_of;

verus! {

/// Each element in decimal, followed by a tab.
pub open spec fn array_text(a: Seq<i32>) -> Seq<char>
    decreases a.len(),
{
    if a.len() == 0 {
        Seq::empty()
    } else {
        array_text(a.drop_last()) + render_spec(a.last() as int, Radix::Decimal) + seq!['\t']
    }
}

/// The elements of `arr` in decimal, each followed by a tab.
pub fn array_line(arr: &[i32]) -> (s: String)
    ensures
        s@ == array_text(arr@),
{
    let mut out: Vec<char> = Vec::new();
    let mut i: usize = 0;
    while i < arr.len()
        invariant
            i <= arr@.len(),
            out@ == array_text(arr@.take(i as int)),
        decreases arr.len() - i,
    {
        let ds = render_chars(arr[i] as i128, Radix::Decimal);
        let ghost before = out@;
        let mut k: usize = 0;
        while k < ds.len()
            invariant
                k <= ds@.len(),
                out@ == before + ds@.take(k as int),
            decreases ds.len() - k,
        {
            out.push(ds[k]);
            k = k + 1;
            assert(out@ =~= before + ds@.take(k as int));
        }
        out.push('\t');
        proof {
            assert(ds@.take(ds@.len() as int) =~= ds@);
            assert(arr@.take(i + 1).drop_last() =~= arr@.take(i as int));
        }
        i = i + 1;
        assert(out@ =~= array_text(arr@.take(i as int)));
    }
    assert(arr@.take(arr@.len() as int) =~= arr@);
    string_of(&out)
}

} // verus!

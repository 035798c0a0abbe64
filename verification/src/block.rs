//! Relocation of a contiguous block of lines: the block of length `n`
//! starting at `src` is moved to sit immediately at or after the destination
//! index `dst`, by rotating the minimal enclosing slice.

use crate::errors::OutOfBounds;
use vstd::prelude::*;

verus! {

/// The sequence after rotating the window `[a, b)` of `s` so that the
/// element at `a + split` comes first in the window; everything outside
/// the window is unchanged.
pub open spec fn rotate_window<T>(s: Seq<T>, a: int, b: int, split: int) -> Seq<T> {
    s.subrange(0, a) + s.subrange(a + split, b) + s.subrange(a, a + split) + s.subrange(
        b,
        s.len() as int,
    )
}

/// The sequence after moving the block `[src, src + n)` of `s` to the
/// destination index `dst`: for `dst < src` the block comes to rest at
/// `[dst, dst + n)`; for `dst >= src + n - 1` at `[dst - n + 1, dst + 1)`;
/// for a destination strictly inside the block, the enclosing slice
/// `[src, dst]` is rotated left by `n` modulo its length.
pub open spec fn move_spec<T>(s: Seq<T>, src: int, dst: int, n: int) -> Seq<T> {
    if dst < src {
        rotate_window(s, dst, src + n, src - dst)
    } else {
        rotate_window(s, src, dst + 1, n % (dst + 1 - src))
    }
}

/// Law: a relocation with the destination outside the moved block places
/// the block contiguously at the destination and keeps every other line,
/// in its original relative order, around it.
pub proof fn lemma_move_spec_places_block<T>(s: Seq<T>, src: int, dst: int, n: int)
    requires
        0 <= src,
        0 <= dst < s.len(),
        1 <= n,
        src + n <= s.len(),
        dst < src || dst >= src + n - 1,
    ensures
        dst < src ==> move_spec(s, src, dst, n) =~= s.subrange(0, dst) + s.subrange(src, src + n)
            + s.subrange(dst, src) + s.subrange(src + n, s.len() as int),
        dst >= src + n - 1 ==> move_spec(s, src, dst, n) =~= s.subrange(0, src) + s.subrange(
            src + n,
            dst + 1,
        ) + s.subrange(src, src + n) + s.subrange(dst + 1, s.len() as int),
{
    if dst >= src + n - 1 {
        let len = dst + 1 - src;
        if n < len {
            assert(n % len == n) by (nonlinear_arith)
                requires
                    0 <= n < len,
            ;
        } else {
            assert(n == len);
            assert(n % len == 0) by (nonlinear_arith)
                requires
                    n == len,
                    1 <= len,
            ;
        }
    }
}

/// Moves the block of `n` lines starting at `src` so that it comes to rest
/// at the destination index `dst`, rotating the minimal enclosing slice;
/// fails with `OutOfBounds` exactly when `n` exceeds the line count.
pub fn move_elements(v: &mut Vec<String>, src: usize, dst: usize, n: usize) -> (r: Result<
    (),
    OutOfBounds,
>)
    requires
        src < old(v)@.len(),
        dst < old(v)@.len(),
        n <= old(v)@.len() ==> src + n <= old(v)@.len(),
    ensures
        r is Err <==> n > old(v)@.len(),
        r is Err ==> final(v)@ == old(v)@,
        r is Ok ==> final(v)@ == move_spec(old(v)@, src as int, dst as int, n as int),
{
    if n > v.len() {
        return Err(OutOfBounds {});
    }
    let ghost s = v@;
    let (a, b, split) = if dst < src {
        (dst, src + n, src - dst)
    } else {
        let len = dst + 1 - src;
        (src, dst + 1, n % len)
    };
    let mut out: Vec<String> = Vec::new();
    push_range(&mut out, v, 0, a);
    push_range(&mut out, v, a + split, b);
    push_range(&mut out, v, a, a + split);
    push_range(&mut out, v, b, v.len());
    proof {
        assert(out@ =~= rotate_window(s, a as int, b as int, split as int));
    }
    *v = out;
    Ok(())
}

/// Appends clones of the elements of `v` at indices `[from, to)` to `out`.
fn push_range(out: &mut Vec<String>, v: &Vec<String>, from: usize, to: usize)
    requires
        from <= to <= v@.len(),
    ensures
        final(out)@ == old(out)@ + v@.subrange(from as int, to as int),
{
    let mut i: usize = from;
    proof {
        assert(out@ =~= old(out)@ + v@.subrange(from as int, from as int));
    }
    while i < to
        invariant
            from <= i <= to <= v@.len(),
            out@ == old(out)@ + v@.subrange(from as int, i as int),
        decreases to - i,
    {
        out.push(v[i].clone());
        proof {
            assert(out@ =~= old(out)@ + v@.subrange(from as int, i + 1));
        }
        i += 1;
    }
}

} // verus!

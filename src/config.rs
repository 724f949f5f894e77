use vstd::prelude::*;

use crate::error::RasterError;
use crate::grid::GridSize;

verus! {

pub open spec fn is_digit(c: char) -> bool {
    '0' <= c <= '9'
}

/// A non-empty run of decimal digits.
pub open spec fn is_number_text(t: Seq<char>) -> bool {
    t.len() > 0 && forall|i: int| 0 <= i < t.len() ==> is_digit(#[trigger] t[i])
}

/// The value of a run of decimal digits.
pub open spec fn digits_value(t: Seq<char>) -> nat
    decreases t.len(),
{
    if t.len() == 0 {
        0
    } else {
        digits_value(t.drop_last()) * 10 + (t.last() as nat - '0' as nat) as nat
    }
}

/// `s` reads `<width>x<height>` with the `x` at position `k`, both sides
/// runs of decimal digits.
pub open spec fn grid_text_at(s: Seq<char>, k: int) -> bool {
    &&& 0 <= k < s.len()
    &&& s[k] == 'x'
    &&& is_number_text(s.take(k))
    &&& is_number_text(s.skip(k + 1))
}

/// `s` reads `<width>x<height>` and both values are positive 32-bit
/// integers.
pub open spec fn grid_text_accepted(s: Seq<char>) -> bool {
    exists|k: int|
        grid_text_at(s, k) && 0 < digits_value(s.take(k)) <= u32::MAX && 0 < digits_value(
            s.skip(k + 1),
        ) <= u32::MAX
}

proof fn lemma_prefix_value_le(t: Seq<char>, j: int)
    requires
        0 <= j <= t.len(),
    ensures
        digits_value(t.take(j)) <= digits_value(t),
    decreases t.len() - j,
{
    if j < t.len() {
        lemma_prefix_value_le(t, j + 1);
        let u = t.take(j + 1);
        assert(u.drop_last() =~= t.take(j));
    } else {
        assert(t.take(j) =~= t);
    }
}

/// The value of the digits of `s` from `from` up to, not including, `to`,
/// if they are a run of decimal digits whose value fits in 32 bits.
fn parse_number(s: &str, from: usize, to: usize) -> (r: Option<u32>)
    requires
        from <= to <= s@.len(),
    ensures
        r is Some <==> (is_number_text(s@.subrange(from as int, to as int)) && digits_value(
            s@.subrange(from as int, to as int),
        ) <= u32::MAX),
        r matches Some(v) ==> v == digits_value(s@.subrange(from as int, to as int)),
{
    let ghost t = s@.subrange(from as int, to as int);
    if from == to {
        return None;
    }
    let mut acc: u64 = 0;
    let mut i: usize = from;
    while i < to
        invariant
            from <= i <= to <= s@.len(),
            t == s@.subrange(from as int, to as int),
            acc == digits_value(t.take(i - from)),
            acc <= u32::MAX,
            forall|j: int| 0 <= j < i - from ==> is_digit(#[trigger] t[j]),
        decreases to - i,
    {
        let c = s.get_char(i);
        if c < '0' || c > '9' {
            assert(!is_digit(t[i - from]));
            return None;
        }
        let d: u64 = (c as u32 - '0' as u32) as u64;
        proof {
            let u = t.take(i - from + 1);
            assert(u.drop_last() =~= t.take(i - from));
            assert(u.last() == c);
        }
        acc = acc * 10 + d;
        if acc > 0xffff_ffff {
            proof {
                if is_number_text(t) {
                    lemma_prefix_value_le(t, i - from + 1);
                }
            }
            return None;
        }
        i = i + 1;
    }
    proof {
        assert(t.take(i - from) =~= t);
    }
    Some(acc as u32)
}

/// Reads a grid size written `<width>x<height>`: two runs of decimal digits
/// around one `x`, each a positive 32-bit value. Anything else is a
/// configuration error.
pub fn parse_grid_size(s: &str) -> (r: Result<GridSize, RasterError>)
    ensures
        r is Ok <==> grid_text_accepted(s@),
        r matches Ok(g) ==> exists|k: int|
            grid_text_at(s@, k) && g.width == digits_value(s@.take(k)) && g.height
                == digits_value(s@.skip(k + 1)),
        r matches Ok(g) ==> g.valid(),
        r is Err ==> r == Err::<GridSize, RasterError>(RasterError::Configuration),
{
    let n = s.unicode_len();
    let mut k: usize = 0;
    while k < n && s.get_char(k) != 'x'
        invariant
            0 <= k <= n == s@.len(),
            forall|j: int| 0 <= j < k ==> s@[j] != 'x',
        decreases n - k,
    {
        k = k + 1;
    }
    if k == n {
        proof {
            assert forall|j: int| !grid_text_at(s@, j) by {}
        }
        return Err(RasterError::Configuration);
    }
    proof {
        assert forall|j: int| #[trigger] grid_text_at(s@, j) implies j == k by {
            if j < k {
                assert(s@[j] != 'x');
            } else if j > k {
                assert(s@.take(j)[k as int] == 'x');
                assert(!is_digit(s@.take(j)[k as int]));
            }
        }
        assert(s@.subrange(0, k as int) =~= s@.take(k as int));
        assert(s@.subrange(k + 1, n as int) =~= s@.skip(k + 1));
    }
    let w = parse_number(s, 0, k);
    let h = parse_number(s, k + 1, n);
    match (w, h) {
        (Some(w), Some(h)) => {
            if w == 0 || h == 0 {
                Err(RasterError::Configuration)
            } else {
                proof {
                    assert(grid_text_at(s@, k as int));
                }
                Ok(GridSize { width: w, height: h })
            }
        },
        _ => Err(RasterError::Configuration),
    }
}

} // verus!

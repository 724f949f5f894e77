use vstd::prelude::*;

use crate::text::{decimal_text, push_decimal};

verus! {

/// A pixel: red, green, blue and alpha channels, each 0 to 255.
#[derive(Clone, Copy, Debug, PartialEq, Eq, Structural)]
pub struct RGBA(pub u8, pub u8, pub u8, pub u8);

/// Channel `c` of `p`: 0 red, 1 green, 2 blue, 3 alpha.
pub open spec fn channel(p: RGBA, c: int) -> int {
    if c == 0 {
        p.0 as int
    } else if c == 1 {
        p.1 as int
    } else if c == 2 {
        p.2 as int
    } else {
        p.3 as int
    }
}

/// The sum of channel `c` over the pixels of `s`.
pub open spec fn channel_sum(s: Seq<RGBA>, c: int) -> int
    decreases s.len(),
{
    if s.len() == 0 {
        0
    } else {
        channel_sum(s.drop_last(), c) + channel(s.last(), c)
    }
}

/// The per-channel arithmetic mean of `s`, rounded down.
pub open spec fn mean(s: Seq<RGBA>) -> RGBA
    recommends
        s.len() > 0,
{
    RGBA(
        (channel_sum(s, 0) / s.len() as int) as u8,
        (channel_sum(s, 1) / s.len() as int) as u8,
        (channel_sum(s, 2) / s.len() as int) as u8,
        (channel_sum(s, 3) / s.len() as int) as u8,
    )
}

/// The functional notation of a color, alpha as a raw 0 to 255 value:
/// `rgba(r, g, b, a)`.
pub open spec fn color_text(p: RGBA) -> Seq<char> {
    "rgba("@ + decimal_text(p.0 as nat) + ", "@ + decimal_text(p.1 as nat) + ", "@
        + decimal_text(p.2 as nat) + ", "@ + decimal_text(p.3 as nat) + ")"@
}

/// A channel sum lies between the count times any lower bound and the
/// count times any upper bound of that channel.
pub proof fn lemma_channel_sum_bounds(s: Seq<RGBA>, c: int, lo: int, hi: int)
    requires
        forall|i: int| 0 <= i < s.len() ==> lo <= #[trigger] channel(s[i], c) <= hi,
    ensures
        s.len() * lo <= channel_sum(s, c) <= s.len() * hi,
    decreases s.len(),
{
    if s.len() > 0 {
        let t = s.drop_last();
        assert forall|i: int| 0 <= i < t.len() implies lo <= #[trigger] channel(t[i], c) <= hi by {
            assert(t[i] == s[i]);
        }
        lemma_channel_sum_bounds(t, c, lo, hi);
        assert(channel(s.last(), c) == channel(s[s.len() - 1], c));
        assert(s.len() * lo == t.len() * lo + lo) by (nonlinear_arith)
            requires
                s.len() == t.len() + 1,
        ;
        assert(s.len() * hi == t.len() * hi + hi) by (nonlinear_arith)
            requires
                s.len() == t.len() + 1,
        ;
    }
}

/// Every channel of a mean lies within the smallest and the largest value
/// of that channel among the averaged pixels.
pub proof fn lemma_mean_within_extremes(s: Seq<RGBA>, c: int, lo: int, hi: int)
    requires
        s.len() > 0,
        0 <= c < 4,
        forall|i: int| 0 <= i < s.len() ==> lo <= #[trigger] channel(s[i], c) <= hi,
    ensures
        lo <= channel(mean(s), c) <= hi,
{
    lemma_channel_sum_bounds(s, c, lo, hi);
    lemma_channel_sum_bounds(s, c, 0, 255);
    let n = s.len() as int;
    let sum = channel_sum(s, c);
    assert(lo <= sum / n <= hi) by (nonlinear_arith)
        requires
            n > 0,
            n * lo <= sum <= n * hi,
    ;
    assert(0 <= sum / n <= 255) by (nonlinear_arith)
        requires
            n > 0,
            n * 0 <= sum <= n * 255,
    ;
}

/// The mean of pixels that all equal `p` is exactly `p`.
pub proof fn lemma_mean_of_uniform(s: Seq<RGBA>, p: RGBA)
    requires
        s.len() > 0,
        forall|i: int| 0 <= i < s.len() ==> #[trigger] s[i] == p,
    ensures
        mean(s) == p,
{
    assert forall|c: int| 0 <= c < 4 implies channel(mean(s), c) == channel(p, c) by {
        assert forall|i: int| 0 <= i < s.len() implies channel(p, c) <= #[trigger] channel(s[i], c)
            <= channel(p, c) by {
            assert(s[i] == p);
        }
        lemma_mean_within_extremes(s, c, channel(p, c), channel(p, c));
    }
    assert(channel(mean(s), 0) == channel(p, 0));
    assert(channel(mean(s), 1) == channel(p, 1));
    assert(channel(mean(s), 2) == channel(p, 2));
    assert(channel(mean(s), 3) == channel(p, 3));
}

impl RGBA {
    /// The per-channel mean of a non-empty list of pixels, each channel
    /// summed in a wide accumulator and divided down.
    pub fn from_vrgb(vrgb: Vec<RGBA>) -> (r: RGBA)
        requires
            vrgb.len() > 0,
        ensures
            r == mean(vrgb@),
    {
        let n: usize = vrgb.len();
        let mut sr: u128 = 0;
        let mut sg: u128 = 0;
        let mut sb: u128 = 0;
        let mut sa: u128 = 0;
        let mut i: usize = 0;
        while i < n
            invariant
                n == vrgb.len(),
                0 <= i <= n,
                sr == channel_sum(vrgb@.take(i as int), 0),
                sg == channel_sum(vrgb@.take(i as int), 1),
                sb == channel_sum(vrgb@.take(i as int), 2),
                sa == channel_sum(vrgb@.take(i as int), 3),
                sr <= 255 * i,
                sg <= 255 * i,
                sb <= 255 * i,
                sa <= 255 * i,
            decreases n - i,
        {
            let p = vrgb[i];
            proof {
                let t = vrgb@.take(i as int + 1);
                assert(t.drop_last() =~= vrgb@.take(i as int));
                assert(t.last() == p);
            }
            sr = sr + p.0 as u128;
            sg = sg + p.1 as u128;
            sb = sb + p.2 as u128;
            sa = sa + p.3 as u128;
            i = i + 1;
        }
        proof {
            assert(vrgb@.take(n as int) =~= vrgb@);
            lemma_channel_sum_bounds(vrgb@, 0, 0, 255);
            lemma_channel_sum_bounds(vrgb@, 1, 0, 255);
            lemma_channel_sum_bounds(vrgb@, 2, 0, 255);
            lemma_channel_sum_bounds(vrgb@, 3, 0, 255);
            assert forall|c: int| 0 <= c < 4 implies 0 <= #[trigger] channel_sum(vrgb@, c) / (n as int) <= 255 by {
                let sum = channel_sum(vrgb@, c);
                let m = n as int;
                assert(0 <= sum / m <= 255) by (nonlinear_arith)
                    requires
                        m > 0,
                        m * 0 <= sum <= m * 255,
                ;
            }
            assert(0 <= channel_sum(vrgb@, 0) / (n as int) <= 255);
            assert(0 <= channel_sum(vrgb@, 1) / (n as int) <= 255);
            assert(0 <= channel_sum(vrgb@, 2) / (n as int) <= 255);
            assert(0 <= channel_sum(vrgb@, 3) / (n as int) <= 255);
        }
        let m: u128 = n as u128;
        RGBA((sr / m) as u8, (sg / m) as u8, (sb / m) as u8, (sa / m) as u8)
    }

    /// The color in functional notation: `rgba(r, g, b, a)`.
    pub fn to_str(&self) -> (r: String)
        ensures
            r@ == color_text(*self),
    {
        let mut s = String::new();
        s.append("rgba(");
        push_decimal(&mut s, self.0 as u128);
        s.append(", ");
        push_decimal(&mut s, self.1 as u128);
        s.append(", ");
        push_decimal(&mut s, self.2 as u128);
        s.append(", ");
        push_decimal(&mut s, self.3 as u128);
        s.append(")");
        s
    }
}

} // verus!

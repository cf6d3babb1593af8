//! A piecewise-linear colour ramp over fixed-point keys.
//!
//! A ramp is an ascending list of control points. A value between two
//! neighbouring keys gets the linear blend of their colours, channel by
//! channel, rounded down; a value outside the keys gets the colour of the
//! nearest end.

use vstd::prelude::*;

verus! {

/// One colour, eight bits per channel.
#[derive(Clone, Copy, Debug, PartialEq, Eq, Structural)]
pub struct Rgba {
    pub r: u8,
    pub g: u8,
    pub b: u8,
    pub a: u8,
}

/// A control point of a ramp: the colour that the ramp takes at `key`.
#[derive(Clone, Copy, Debug, PartialEq, Eq, Structural)]
pub struct GradientPoint {
    pub key: i64,
    pub color: Rgba,
}

/// Why a list of control points is not a ramp.
#[derive(Clone, Copy, Debug, PartialEq, Eq, Structural)]
pub enum GradientError {
    /// The list holds no control point.
    Empty,
    /// Some key is not greater than the key before it.
    KeysNotIncreasing,
}

/// Every key is smaller than all keys after it.
pub open spec fn strictly_increasing(points: Seq<GradientPoint>) -> bool {
    forall|i: int, j: int| 0 <= i < j < points.len() ==> points[i].key < points[j].key
}

/// A ramp has at least one control point and strictly increasing keys.
pub open spec fn valid_ramp(points: Seq<GradientPoint>) -> bool {
    points.len() > 0 && strictly_increasing(points)
}

/// The blend of two channel values at `num / den` of the way from `c0` to
/// `c1`, rounded down.
pub open spec fn blend_channel(c0: u8, c1: u8, num: int, den: int) -> int {
    (c0 * (den - num) + c1 * num) / den
}

/// The channelwise blend of two colours.
pub open spec fn blend(c0: Rgba, c1: Rgba, num: int, den: int) -> Rgba {
    Rgba {
        r: blend_channel(c0.r, c1.r, num, den) as u8,
        g: blend_channel(c0.g, c1.g, num, den) as u8,
        b: blend_channel(c0.b, c1.b, num, den) as u8,
        a: blend_channel(c0.a, c1.a, num, den) as u8,
    }
}

/// The index of the last control point whose key is at most `v`, or 0 if
/// there is none.
pub open spec fn segment_of(points: Seq<GradientPoint>, v: int) -> int
    decreases points.len(),
{
    if points.len() <= 1 {
        0
    } else if points.last().key <= v {
        points.len() - 1
    } else {
        segment_of(points.drop_last(), v)
    }
}

/// The colour of a ramp at `v`.
pub open spec fn ramp_color(points: Seq<GradientPoint>, v: int) -> Rgba {
    if v <= points.first().key {
        points.first().color
    } else if v >= points.last().key {
        points.last().color
    } else {
        let i = segment_of(points, v);
        blend(
            points[i].color,
            points[i + 1].color,
            v - points[i].key,
            points[i + 1].key - points[i].key,
        )
    }
}

/// The control points of the nebula ramp, from deep space at -1 to star
/// white at +1, with keys in units of `1 / 65536`.
pub open spec fn nebula_points() -> Seq<GradientPoint> {
    seq![
        GradientPoint { key: (-65536) as i64, color: Rgba { r: 5, g: 0, b: 15, a: 255 } },
        GradientPoint { key: (-61440) as i64, color: Rgba { r: 18, g: 0, b: 30, a: 255 } },
        GradientPoint { key: (-49152) as i64, color: Rgba { r: 28, g: 0, b: 60, a: 255 } },
        GradientPoint { key: (-32768) as i64, color: Rgba { r: 40, g: 0, b: 72, a: 255 } },
        GradientPoint { key: (-16384) as i64, color: Rgba { r: 48, g: 20, b: 80, a: 255 } },
        GradientPoint { key: 0, color: Rgba { r: 60, g: 20, b: 92, a: 255 } },
        GradientPoint { key: 16384, color: Rgba { r: 75, g: 0, b: 130, a: 255 } },
        GradientPoint { key: 32768, color: Rgba { r: 0, g: 0, b: 0, a: 255 } },
        GradientPoint { key: 49152, color: Rgba { r: 143, g: 0, b: 255, a: 255 } },
        GradientPoint { key: 65536, color: Rgba { r: 255, g: 255, b: 255, a: 255 } },
    ]
}

/// A blended channel lies between the two channels it blends, and is one of
/// them at either end.
pub proof fn lemma_blend_channel_between(c0: u8, c1: u8, num: int, den: int)
    requires
        0 <= num <= den,
        0 < den,
    ensures
        c0 <= c1 ==> c0 <= blend_channel(c0, c1, num, den) <= c1,
        c1 <= c0 ==> c1 <= blend_channel(c0, c1, num, den) <= c0,
        num == 0 ==> blend_channel(c0, c1, num, den) == c0,
        num == den ==> blend_channel(c0, c1, num, den) == c1,
{
    let a = c0 as int;
    let b = c1 as int;
    let n = a * (den - num) + b * num;
    assert(n == a * den + (b - a) * num) by (nonlinear_arith)
        requires
            n == a * (den - num) + b * num,
    ;
    if a <= b {
        assert(a * den <= n <= b * den) by (nonlinear_arith)
            requires
                n == a * den + (b - a) * num,
                0 <= num <= den,
                a <= b,
        ;
    } else {
        assert(b * den <= n <= a * den) by (nonlinear_arith)
            requires
                n == a * den + (b - a) * num,
                0 <= num <= den,
                b <= a,
        ;
    }
    vstd::arithmetic::div_mod::lemma_div_multiples_vanish(a, den);
    vstd::arithmetic::div_mod::lemma_div_multiples_vanish(b, den);
    assert(a * den == den * a && b * den == den * b) by (nonlinear_arith);
    if a <= b {
        vstd::arithmetic::div_mod::lemma_div_is_ordered(a * den, n, den);
        vstd::arithmetic::div_mod::lemma_div_is_ordered(n, b * den, den);
    } else {
        vstd::arithmetic::div_mod::lemma_div_is_ordered(b * den, n, den);
        vstd::arithmetic::div_mod::lemma_div_is_ordered(n, a * den, den);
    }
    if num == 0 {
        assert(n == a * den) by (nonlinear_arith)
            requires
                n == a * den + (b - a) * num,
                num == 0,
        ;
    }
    if num == den {
        assert(n == b * den) by (nonlinear_arith)
            requires
                n == a * den + (b - a) * num,
                num == den,
        ;
    }
}

/// Where `v` lies in the segment that starts at control point `i`, that
/// segment is the one `segment_of` finds.
pub proof fn lemma_segment_of(points: Seq<GradientPoint>, v: int, i: int)
    requires
        strictly_increasing(points),
        0 <= i,
        i + 1 < points.len(),
        points[i].key <= v < points[i + 1].key,
    ensures
        segment_of(points, v) == i,
    decreases points.len(),
{
    let last = points.len() - 1;
    if points.last().key <= v {
        assert(points[i + 1].key <= points[last].key);
    } else {
        let rest = points.drop_last();
        assert forall|a: int, b: int| 0 <= a < b < rest.len() implies rest[a].key
            < rest[b].key by {
            assert(rest[a] == points[a] && rest[b] == points[b]);
        }
        if i + 1 < rest.len() {
            assert(rest[i] == points[i] && rest[i + 1] == points[i + 1]);
            lemma_segment_of(rest, v, i);
        } else {
            reveal_with_fuel(segment_of, 2);
            assert(rest.len() == i + 1);
            assert(rest.last() == points[i]);
        }
    }
}

/// A value within the keys of a ramp, below the last, lies in the segment
/// that `segment_of` finds.
pub proof fn lemma_segment_bracket(points: Seq<GradientPoint>, v: int)
    requires
        strictly_increasing(points),
        points.len() > 0,
        points.first().key <= v < points.last().key,
    ensures
        0 <= segment_of(points, v),
        segment_of(points, v) + 1 < points.len(),
        points[segment_of(points, v)].key <= v < points[segment_of(points, v) + 1].key,
    decreases points.len(),
{
    let rest = points.drop_last();
    assert forall|a: int, b: int| 0 <= a < b < rest.len() implies rest[a].key < rest[b].key by {
        assert(rest[a] == points[a] && rest[b] == points[b]);
    }
    assert(rest.first() == points.first());
    if v < rest.last().key {
        lemma_segment_bracket(rest, v);
        let i = segment_of(rest, v);
        assert(rest[i] == points[i] && rest[i + 1] == points[i + 1]);
    } else {
        reveal_with_fuel(segment_of, 2);
        assert(rest.last() == points[points.len() - 2]);
    }
}

/// A ramp whose control points all have the same alpha has that alpha
/// everywhere.
pub proof fn lemma_ramp_alpha(points: Seq<GradientPoint>, v: int, alpha: u8)
    requires
        valid_ramp(points),
        forall|i: int| 0 <= i < points.len() ==> (#[trigger] points[i]).color.a == alpha,
    ensures
        ramp_color(points, v).a == alpha,
{
    if v <= points.first().key {
    } else if v >= points.last().key {
    } else {
        lemma_segment_bracket(points, v);
        let i = segment_of(points, v);
        lemma_blend_channel_between(
            points[i].color.a,
            points[i + 1].color.a,
            v - points[i].key,
            points[i + 1].key - points[i].key,
        );
    }
}

/// At the key of a control point a ramp takes that point's colour.
pub proof fn lemma_color_at_key(points: Seq<GradientPoint>, i: int)
    requires
        valid_ramp(points),
        0 <= i < points.len(),
    ensures
        ramp_color(points, points[i].key as int) == points[i].color,
{
    let v = points[i].key as int;
    let last = points.len() - 1;
    if i == 0 {
    } else if i == last {
    } else {
        assert(points[0].key < points[i].key);
        assert(points[i].key < points[last].key);
        lemma_segment_of(points, v, i);
        let den = points[i + 1].key - points[i].key;
        let c0 = points[i].color;
        let c1 = points[i + 1].color;
        lemma_blend_channel_between(c0.r, c1.r, 0, den);
        lemma_blend_channel_between(c0.g, c1.g, 0, den);
        lemma_blend_channel_between(c0.b, c1.b, 0, den);
        lemma_blend_channel_between(c0.a, c1.a, 0, den);
    }
}

/// From one key to the next a ramp takes the blend of the two control
/// points, and every channel of it lies between their channels.
pub proof fn lemma_color_between_keys(points: Seq<GradientPoint>, v: int, i: int)
    requires
        valid_ramp(points),
        0 <= i,
        i + 1 < points.len(),
        points[i].key <= v <= points[i + 1].key,
    ensures
        ramp_color(points, v) == blend(
            points[i].color,
            points[i + 1].color,
            v - points[i].key,
            points[i + 1].key - points[i].key,
        ),
        channel_between(points[i].color.r, points[i + 1].color.r, ramp_color(points, v).r),
        channel_between(points[i].color.g, points[i + 1].color.g, ramp_color(points, v).g),
        channel_between(points[i].color.b, points[i + 1].color.b, ramp_color(points, v).b),
        channel_between(points[i].color.a, points[i + 1].color.a, ramp_color(points, v).a),
{
    let last = points.len() - 1;
    assert(points[0].key <= points[i].key);
    assert(points[i + 1].key <= points[last].key);
    let num = v - points[i].key;
    let den = points[i + 1].key - points[i].key;
    let c0 = points[i].color;
    let c1 = points[i + 1].color;
    lemma_blend_channel_between(c0.r, c1.r, num, den);
    lemma_blend_channel_between(c0.g, c1.g, num, den);
    lemma_blend_channel_between(c0.b, c1.b, num, den);
    lemma_blend_channel_between(c0.a, c1.a, num, den);
    if v == points[i].key {
        lemma_color_at_key(points, i);
    } else if v == points[i + 1].key {
        lemma_color_at_key(points, i + 1);
    } else {
        lemma_segment_of(points, v, i);
    }
}

/// Outside its keys a ramp keeps the colour of its nearest end.
pub proof fn lemma_color_clamped(points: Seq<GradientPoint>, v: int)
    requires
        valid_ramp(points),
    ensures
        v <= points.first().key ==> ramp_color(points, v) == points.first().color,
        v >= points.last().key ==> ramp_color(points, v) == points.last().color,
{
    if v <= points.first().key && v >= points.last().key {
        assert(points.len() > 1 ==> points[0].key < points[points.len() - 1].key);
    }
}

/// Whether `c` lies between `c0` and `c1`, in either order.
pub open spec fn channel_between(c0: u8, c1: u8, c: u8) -> bool {
    (c0 <= c <= c1) || (c1 <= c <= c0)
}

/// The control points of the nebula form a ramp, fully opaque throughout.
pub proof fn lemma_nebula_valid()
    ensures
        valid_ramp(nebula_points()),
        nebula_points().len() == 10,
        forall|i: int| 0 <= i < 10 ==> (#[trigger] nebula_points()[i]).color.a == 255,
{
    let p = nebula_points();
    assert(p.len() == 10);
    assert(p[0].key == -65536 && p[1].key == -61440 && p[2].key == -49152 && p[3].key == -32768
        && p[4].key == -16384 && p[5].key == 0 && p[6].key == 16384 && p[7].key == 32768
        && p[8].key == 49152 && p[9].key == 65536);
}

/// At each of its ten keys the nebula ramp takes the colour set for it.
pub proof fn lemma_nebula_keys()
    ensures
        ramp_color(nebula_points(), -65536) == (Rgba { r: 5, g: 0, b: 15, a: 255 }),
        ramp_color(nebula_points(), -61440) == (Rgba { r: 18, g: 0, b: 30, a: 255 }),
        ramp_color(nebula_points(), -49152) == (Rgba { r: 28, g: 0, b: 60, a: 255 }),
        ramp_color(nebula_points(), -32768) == (Rgba { r: 40, g: 0, b: 72, a: 255 }),
        ramp_color(nebula_points(), -16384) == (Rgba { r: 48, g: 20, b: 80, a: 255 }),
        ramp_color(nebula_points(), 0) == (Rgba { r: 60, g: 20, b: 92, a: 255 }),
        ramp_color(nebula_points(), 16384) == (Rgba { r: 75, g: 0, b: 130, a: 255 }),
        ramp_color(nebula_points(), 32768) == (Rgba { r: 0, g: 0, b: 0, a: 255 }),
        ramp_color(nebula_points(), 49152) == (Rgba { r: 143, g: 0, b: 255, a: 255 }),
        ramp_color(nebula_points(), 65536) == (Rgba { r: 255, g: 255, b: 255, a: 255 }),
{
    lemma_nebula_valid();
    let p = nebula_points();
    lemma_color_at_key(p, 0);
    lemma_color_at_key(p, 1);
    lemma_color_at_key(p, 2);
    lemma_color_at_key(p, 3);
    lemma_color_at_key(p, 4);
    lemma_color_at_key(p, 5);
    lemma_color_at_key(p, 6);
    lemma_color_at_key(p, 7);
    lemma_color_at_key(p, 8);
    lemma_color_at_key(p, 9);
}

/// An ascending list of control points.
#[derive(Debug)]
pub struct ColorRamp {
    points: Vec<GradientPoint>,
}

impl View for ColorRamp {
    type V = Seq<GradientPoint>;

    closed spec fn view(&self) -> Seq<GradientPoint> {
        self.points@
    }
}

/// Blends one channel; `num` of `den` parts of the way from `c0` to `c1`.
fn blend_channel_exec(c0: u8, c1: u8, num: u128, den: u128) -> (c: u8)
    requires
        num <= den,
        0 < den <= u64::MAX,
    ensures
        c as int == blend_channel(c0, c1, num as int, den as int),
{
    proof {
        lemma_blend_channel_between(c0, c1, num as int, den as int);
        assert(c0 * (den - num) <= 255 * 0xffff_ffff_ffff_ffff) by (nonlinear_arith)
            requires
                c0 <= 255,
                0 <= den - num <= 0xffff_ffff_ffff_ffff,
        ;
        assert(c1 * num <= 255 * 0xffff_ffff_ffff_ffff) by (nonlinear_arith)
            requires
                c1 <= 255,
                0 <= num <= 0xffff_ffff_ffff_ffff,
        ;
    }
    let n: u128 = (c0 as u128) * (den - num) + (c1 as u128) * num;
    let q: u128 = n / den;
    q as u8
}

/// Blends two colours channel by channel.
fn blend_exec(c0: Rgba, c1: Rgba, num: u128, den: u128) -> (c: Rgba)
    requires
        num <= den,
        0 < den <= u64::MAX,
    ensures
        c == blend(c0, c1, num as int, den as int),
{
    Rgba {
        r: blend_channel_exec(c0.r, c1.r, num, den),
        g: blend_channel_exec(c0.g, c1.g, num, den),
        b: blend_channel_exec(c0.b, c1.b, num, den),
        a: blend_channel_exec(c0.a, c1.a, num, den),
    }
}

impl ColorRamp {
    /// Every value of this type is a ramp.
    pub open spec fn wf(&self) -> bool {
        valid_ramp(self@)
    }

    /// Makes a ramp of the given control points, which must be in ascending
    /// order of their keys.
    pub fn from_points(points: Vec<GradientPoint>) -> (res: Result<ColorRamp, GradientError>)
        ensures
            points.len() == 0 <==> res == Err::<ColorRamp, GradientError>(GradientError::Empty),
            points.len() > 0 && !strictly_increasing(points@) <==> res == Err::<
                ColorRamp,
                GradientError,
            >(GradientError::KeysNotIncreasing),
            valid_ramp(points@) <==> res is Ok,
            res matches Ok(ramp) ==> ramp.wf() && ramp@ == points@,
    {
        if points.len() == 0 {
            return Err(GradientError::Empty);
        }
        let mut i: usize = 1;
        while i < points.len()
            invariant
                1 <= i <= points.len(),
                forall|a: int, b: int| 0 <= a < b < i ==> points[a].key < points[b].key,
            decreases points.len() - i,
        {
            if points[i - 1].key >= points[i].key {
                return Err(GradientError::KeysNotIncreasing);
            }
            i += 1;
        }
        Ok(ColorRamp { points })
    }

    /// The ramp of the nebula background.
    pub fn nebula() -> (ramp: ColorRamp)
        ensures
            ramp.wf(),
            ramp@ == nebula_points(),
    {
        let mut points: Vec<GradientPoint> = Vec::new();
        points.push(GradientPoint { key: -65536, color: Rgba { r: 5, g: 0, b: 15, a: 255 } });
        points.push(GradientPoint { key: -61440, color: Rgba { r: 18, g: 0, b: 30, a: 255 } });
        points.push(GradientPoint { key: -49152, color: Rgba { r: 28, g: 0, b: 60, a: 255 } });
        points.push(GradientPoint { key: -32768, color: Rgba { r: 40, g: 0, b: 72, a: 255 } });
        points.push(GradientPoint { key: -16384, color: Rgba { r: 48, g: 20, b: 80, a: 255 } });
        points.push(GradientPoint { key: 0, color: Rgba { r: 60, g: 20, b: 92, a: 255 } });
        points.push(GradientPoint { key: 16384, color: Rgba { r: 75, g: 0, b: 130, a: 255 } });
        points.push(GradientPoint { key: 32768, color: Rgba { r: 0, g: 0, b: 0, a: 255 } });
        points.push(GradientPoint { key: 49152, color: Rgba { r: 143, g: 0, b: 255, a: 255 } });
        points.push(GradientPoint { key: 65536, color: Rgba { r: 255, g: 255, b: 255, a: 255 } });
        proof {
            lemma_nebula_valid();
            assert(points@ =~= nebula_points());
        }
        ColorRamp { points }
    }

    /// The number of control points.
    pub fn len(&self) -> (n: usize)
        ensures
            n == self@.len(),
    {
        self.points.len()
    }

    /// The control point at index `i`.
    pub fn point(&self, i: usize) -> (p: Option<GradientPoint>)
        ensures
            i < self@.len() ==> p == Some(self@[i as int]),
            i >= self@.len() ==> p.is_none(),
    {
        if i < self.points.len() {
            Some(self.points[i])
        } else {
            None
        }
    }

    /// The colour of the ramp at `value`.
    pub fn color_at(&self, value: i64) -> (c: Rgba)
        requires
            self.wf(),
        ensures
            c == ramp_color(self@, value as int),
    {
        let n: usize = self.points.len();
        if value <= self.points[0].key {
            return self.points[0].color;
        }
        if value >= self.points[n - 1].key {
            return self.points[n - 1].color;
        }
        let mut i: usize = 0;
        while value >= self.points[i + 1].key
            invariant
                n == self.points.len(),
                valid_ramp(self.points@),
                i + 1 < n,
                self.points[i as int].key <= value,
                value < self.points[n - 1].key,
            decreases n - i,
        {
            i += 1;
            // The last key is above `value`, so the scan stops before it.
            assert(i != n - 1);
        }
        let p0: GradientPoint = self.points[i];
        let p1: GradientPoint = self.points[i + 1];
        proof {
            lemma_segment_of(self.points@, value as int, i as int);
        }
        let num: u128 = (value as i128 - p0.key as i128) as u128;
        let den: u128 = (p1.key as i128 - p0.key as i128) as u128;
        blend_exec(p0.color, p1.color, num, den)
    }
}

} // verus!

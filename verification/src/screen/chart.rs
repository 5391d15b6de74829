//! Charts of recorded values over time.

use vstd::arithmetic::power2::*;
use vstd::prelude::*;

use crate::log::peak;
use crate::number::value::{fixed, Real, Width};
use crate::number::Double;
use crate::playback::{double, points, Point};
use crate::text::{decimal, decimal_text, pad_with_blanks, padded, texts};

use super::span::Color;

verus! {

/// A named curve.
#[derive(Debug)]
pub struct Curve {
    pub name: String,
    pub color: Color,
    pub points: Vec<Point>,
}

/// The contents of a curve.
pub struct CurveValues {
    pub name: Seq<char>,
    pub color: Color,
    pub points: Seq<(Real, Real)>,
}

impl View for Curve {
    type V = CurveValues;

    open spec fn view(&self) -> CurveValues {
        CurveValues { name: self.name@, color: self.color, points: points(self.points@) }
    }
}

/// An axis from one value to another, with labels in between.
#[derive(Debug)]
pub struct Axis {
    pub title: String,
    pub color: Color,
    pub min: Double,
    pub max: Double,
    pub labels: Vec<String>,
}

/// The contents of an axis.
pub struct AxisValues {
    pub title: Seq<char>,
    pub color: Color,
    pub min: Real,
    pub max: Real,
    pub labels: Seq<Seq<char>>,
}

impl View for Axis {
    type V = AxisValues;

    open spec fn view(&self) -> AxisValues {
        AxisValues {
            title: self.title@,
            color: self.color,
            min: self.min@,
            max: self.max@,
            labels: texts(self.labels@),
        }
    }
}

#[derive(Debug)]
pub struct Chart {
    pub title: String,
    pub curves: Vec<Curve>,
    pub x_axis: Axis,
    pub y_axis: Axis,
}

/// The contents of a chart.
pub struct ChartValues {
    pub title: Seq<char>,
    pub curves: Seq<CurveValues>,
    pub x_axis: AxisValues,
    pub y_axis: AxisValues,
}

impl View for Chart {
    type V = ChartValues;

    open spec fn view(&self) -> ChartValues {
        ChartValues {
            title: self.title@,
            curves: self.curves@.map_values(|c: Curve| c@),
            x_axis: self.x_axis@,
            y_axis: self.y_axis@,
        }
    }
}

/// The time axis of a whole session: from its first to its last point, but at least one
/// second long; one minute from zero without points.
pub open spec fn session_range(curve: Seq<(Real, Real)>) -> (Real, Real) {
    if curve.len() == 0 {
        (Real::zero(), double(60))
    } else {
        (curve[0].0, curve.last().0.larger(curve[0].0.plus(Width::Double, double(1))))
    }
}

/// The distance between labels on a time axis, in seconds.
pub open spec fn step_seconds(min: Real, max: Real) -> nat {
    let range = max.minus(Width::Double, min);
    if range.le(double(60)) {
        10
    } else if range.le(double(300)) {
        30
    } else {
        60
    }
}

/// Counts down while numbers grow.
pub open spec fn room(x: Real) -> nat {
    match x {
        Real::Finite { .. } => if x.signed() >= pow2(Width::Double.range()) {
            1
        } else {
            (pow2(Width::Double.range()) - x.signed() + 1) as nat
        },
        _ => 0,
    }
}

/// A sum that is greater than its first term leaves less room.
pub proof fn lemma_room_shrinks(x: Real, y: Real)
    requires
        x.lt(x.plus(Width::Double, y)),
    ensures
        room(x.plus(Width::Double, y)) < room(x),
{
    let z = x.plus(Width::Double, y);
    lemma_pow2_pos(Width::Double.range());
}

/// The labels at `t`, `t + step` and so on, as far as they are within the axis. There is no
/// answer where adding `step` does not lead on, and so never to the end of the axis.
pub open spec fn labels_from(t: Real, step: Real, min: Real, max: Real) -> Option<Seq<Seq<char>>>
    decreases room(t),
{
    let next = t.plus(Width::Double, step);
    if !t.le(max) {
        Some(Seq::empty())
    } else if !t.lt(next) {
        None
    } else {
        proof {
            lemma_room_shrinks(t, step);
        }
        match labels_from(next, step, min, max) {
            None => None,
            Some(rest) => if min.le(t) {
                Some(seq![seconds(t)] + rest)
            } else {
                Some(rest)
            },
        }
    }
}

/// Whole seconds, as a label.
pub open spec fn seconds(t: Real) -> Seq<char> {
    fixed(Width::Double, t, 0) + "s"@
}

/// The labels of a time axis: at the multiples of the step that are within it, or at its ends
/// where there are none.
pub open spec fn time_labels(min: Real, max: Real) -> Option<Seq<Seq<char>>> {
    let step = double(step_seconds(min, max));
    let start = min.over(Width::Double, step).floor(Width::Double).times(Width::Double, step);
    match labels_from(start, step, min, max) {
        None => None,
        Some(labels) => if labels.len() == 0 {
            Some(seq![seconds(min), seconds(max)])
        } else {
            Some(labels)
        },
    }
}

/// The labels of a percentage axis: every five percent.
pub open spec fn percent_labels() -> Seq<Seq<char>> {
    Seq::new(21, |i: int| padded(decimal((i * 5) as nat), ' ', 3) + "%"@)
}

fn seconds_text(t: Double) -> (text: String)
    ensures
        text@ == seconds(t@),
{
    let mut text = t.fixed(0);
    text.append("s");
    text
}

/// The labels that were found, followed by further ones.
spec fn followed_by(found: Seq<Seq<char>>, rest: Option<Seq<Seq<char>>>) -> Option<Seq<Seq<char>>> {
    match rest {
        None => None,
        Some(labels) => Some(found + labels),
    }
}

/// The labels of a time axis. Returns `None` if the axis lies so far out that counting on in
/// steps does not reach its end.
pub fn time_axis_labels(min: Double, max: Double) -> (labels: Option<Vec<String>>)
    ensures
        match labels {
            Some(l) => time_labels(min@, max@) == Some(texts(l@)),
            None => time_labels(min@, max@) is None,
        },
{
    let range = max.minus(min);
    let step = if range.le(Double::from_integer(60)) {
        Double::from_integer(10)
    } else if range.le(Double::from_integer(300)) {
        Double::from_integer(30)
    } else {
        Double::from_integer(60)
    };
    let mut labels: Vec<String> = Vec::new();
    let mut t = min.over(step).floor().times(step);
    let ghost all = labels_from(t@, step@, min@, max@);
    proof {
        assert(texts(labels@) =~= Seq::<Seq<char>>::empty());
        if let Some(rest) = all {
            assert(texts(labels@) + rest =~= rest);
        }
    }
    while t.le(max)
        invariant
            all is None ==> time_labels(min@, max@) is None,
            all matches Some(l) ==> time_labels(min@, max@) == Some(
                if l.len() == 0 {
                    seq![seconds(min@), seconds(max@)]
                } else {
                    l
                },
            ),
            all == followed_by(texts(labels@), labels_from(t@, step@, min@, max@)),
        decreases room(t@),
    {
        let next = t.plus(step);
        if !t.lt(next) {
            return None;
        }
        let ghost found = texts(labels@);
        let ghost rest = labels_from(next@, step@, min@, max@);
        if min.le(t) {
            labels.push(seconds_text(t));
            proof {
                assert(texts(labels@) =~= found.push(seconds(t@)));
                if let Some(labels_left) = rest {
                    assert(found + (seq![seconds(t@)] + labels_left) =~= texts(labels@)
                        + labels_left);
                }
            }
        }
        proof {
            lemma_room_shrinks(t@, step@);
        }
        t = next;
    }
    proof {
        assert(texts(labels@) + Seq::<Seq<char>>::empty() =~= texts(labels@));
    }
    if labels.len() == 0 {
        labels.push(seconds_text(min));
        labels.push(seconds_text(max));
        assert(texts(labels@) =~= seq![seconds(min@), seconds(max@)]);
    }
    Some(labels)
}

/// The labels of a percentage axis (0%, 5%, 10%, ..., 100%).
pub fn percent_axis_labels() -> (labels: Vec<String>)
    ensures
        texts(labels@) == percent_labels(),
{
    let mut labels: Vec<String> = Vec::new();
    let mut i: u128 = 0;
    while i <= 20
        invariant
            i <= 21,
            texts(labels@) == percent_labels().take(i as int),
        decreases 21 - i,
    {
        let mut text = pad_with_blanks(decimal_text(i * 5), 3);
        text.append("%");
        let ghost found = texts(labels@);
        labels.push(text);
        i += 1;
        proof {
            assert(texts(labels@) =~= found.push(text@));
            assert(percent_labels().take(i as int) =~= percent_labels().take(i - 1).push(text@));
        }
    }
    assert(percent_labels().take(21) =~= percent_labels());
    labels
}

/// The time axis of a whole session.
pub fn session_bounds(curve: &[Point]) -> (r: (Double, Double))
    ensures
        (r.0@, r.1@) == session_range(points(curve@)),
{
    if curve.len() == 0 {
        (Double::zero(), Double::from_integer(60))
    } else {
        let first = curve[0].0;
        let last = curve[curve.len() - 1].0;
        (first, last.larger(first.plus(Double::from_integer(1))))
    }
}

/// The values of a curve.
pub open spec fn heights(curve: Seq<(Real, Real)>) -> Seq<Real> {
    curve.map_values(|p: (Real, Real)| p.1)
}

/// What a drain rate is measured against in the chart: the highest rate, but at least 1.
pub open spec fn full_scale(rates: Seq<(Real, Real)>) -> Real {
    peak(heights(rates)).larger(double(1))
}

/// Rates in percent of the full scale.
pub open spec fn normalized(rates: Seq<(Real, Real)>, full: Real) -> Seq<(Real, Real)> {
    rates.map_values(
        |p: (Real, Real)|
            (p.0, p.1.over(Width::Double, full).times(Width::Double, double(100))),
    )
}

pub fn max_drain_rate(rates: &[Point]) -> (r: Double)
    ensures
        r@ == full_scale(points(rates@)),
{
    let mut r = Double::zero();
    let mut i: usize = 0;
    let ghost all = heights(points(rates@));
    while i < rates.len()
        invariant
            all == heights(points(rates@)),
            i <= rates@.len(),
            r@ == peak(all.take(i as int)),
        decreases rates@.len() - i,
    {
        proof {
            assert(all.take(i + 1).drop_last() == all.take(i as int));
        }
        r = r.larger(rates[i].1);
        i += 1;
    }
    assert(all.take(i as int) == all);
    r.larger(Double::from_integer(1))
}

pub fn normalized_drain_rates(rates: &[Point], full: Double) -> (r: Vec<Point>)
    ensures
        points(r@) == normalized(points(rates@), full@),
{
    let mut r: Vec<Point> = Vec::new();
    let mut i: usize = 0;
    while i < rates.len()
        invariant
            i <= rates@.len(),
            r@.len() == i,
            forall|j: int|
                0 <= j < i ==> (#[trigger] r@[j]).0@ == rates@[j].0@ && r@[j].1@
                    == rates@[j].1@.over(Width::Double, full@).times(Width::Double, double(100)),
        decreases rates@.len() - i,
    {
        let (x, y) = rates[i];
        r.push((x, y.over(full).times(Double::from_integer(100))));
        i += 1;
    }
    assert(points(r@) =~= normalized(points(rates@), full@));
    r
}

/// The chart of a session: charge, drain rate, processor and memory usage over time.
pub open spec fn session_chart(
    title: Seq<char>,
    percentages: Seq<(Real, Real)>,
    rates: Seq<(Real, Real)>,
    cpu: Seq<(Real, Real)>,
    memory: Seq<(Real, Real)>,
    full: Real,
    range: (Real, Real),
) -> Option<ChartValues> {
    match time_labels(range.0, range.1) {
        None => None,
        Some(labels) => Some(
            ChartValues {
                title,
                curves: seq![
                    CurveValues { name: "Battery %"@, color: Color::Green, points: percentages },
                    CurveValues {
                        name: "Drain Rate"@,
                        color: Color::Red,
                        points: normalized(rates, full),
                    },
                    CurveValues { name: "CPU %"@, color: Color::Blue, points: cpu },
                    CurveValues { name: "Memory %"@, color: Color::Magenta, points: memory },
                ],
                x_axis: AxisValues {
                    title: "Time (s)"@,
                    color: Color::Gray,
                    min: range.0,
                    max: range.1,
                    labels,
                },
                y_axis: AxisValues {
                    title: "%"@,
                    color: Color::Yellow,
                    min: Real::zero(),
                    max: double(100),
                    labels: percent_labels(),
                },
            },
        ),
    }
}

/// Puts the chart of a session together. Returns `None` if its time axis cannot be labelled.
pub fn build_chart(
    title: &str,
    percentages: Vec<Point>,
    rates: &[Point],
    cpu: Vec<Point>,
    memory: Vec<Point>,
    full: Double,
    bounds: (Double, Double),
) -> (chart: Option<Chart>)
    ensures
        ({
            let expected = session_chart(
                title@,
                points(percentages@),
                points(rates@),
                points(cpu@),
                points(memory@),
                full@,
                (bounds.0@, bounds.1@),
            );
            match chart {
                Some(c) => expected == Some(c@),
                None => expected is None,
            }
        }),
{
    let labels = match time_axis_labels(bounds.0, bounds.1) {
        Some(labels) => labels,
        None => {
            return None;
        },
    };
    let mut curves: Vec<Curve> = Vec::new();
    let ghost battery_points = points(percentages@);
    let ghost cpu_points = points(cpu@);
    let ghost memory_points = points(memory@);
    curves.push(
        Curve { name: String::from_str("Battery %"), color: Color::Green, points: percentages },
    );
    curves.push(
        Curve {
            name: String::from_str("Drain Rate"),
            color: Color::Red,
            points: normalized_drain_rates(rates, full),
        },
    );
    curves.push(Curve { name: String::from_str("CPU %"), color: Color::Blue, points: cpu });
    curves.push(
        Curve { name: String::from_str("Memory %"), color: Color::Magenta, points: memory },
    );
    let chart = Chart {
        title: String::from_str(title),
        curves,
        x_axis: Axis {
            title: String::from_str("Time (s)"),
            color: Color::Gray,
            min: bounds.0,
            max: bounds.1,
            labels,
        },
        y_axis: Axis {
            title: String::from_str("%"),
            color: Color::Yellow,
            min: Double::zero(),
            max: Double::from_integer(100),
            labels: percent_axis_labels(),
        },
    };
    proof {
        let expected = seq![
            CurveValues { name: "Battery %"@, color: Color::Green, points: battery_points },
            CurveValues {
                name: "Drain Rate"@,
                color: Color::Red,
                points: normalized(points(rates@), full@),
            },
            CurveValues { name: "CPU %"@, color: Color::Blue, points: cpu_points },
            CurveValues { name: "Memory %"@, color: Color::Magenta, points: memory_points },
        ];
        assert(chart@.curves =~= expected);
    }
    Some(chart)
}

} // verus!

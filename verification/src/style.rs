//! The fill and the stroke that a shape is painted with.
use glam::{DAffine2, DVec2};
use vstd::prelude::*;

use crate::geometry::{compose, composition, divide, from_translation, identity, number, number_of, quotient, remainder, remainder_of, splat, zero};
use crate::randomness::{are_drawn_for, lemma_draw, random_fraction, seeded};
use crate::sequences::append_copies;

verus! {

/// A color: the bits of its four components as single precision numbers.
#[derive(Clone, Copy, Debug, PartialEq, Eq, Structural)]
pub struct Color {
    pub red: u32,
    pub green: u32,
    pub blue: u32,
    pub alpha: u32,
}

#[derive(Clone, Copy, Debug, PartialEq, Eq, Structural)]
pub enum GradientType {
    Linear,
    Radial,
}

/// Colors that run into each other.
#[derive(Debug)]
pub struct Gradient {
    /// The colors and how far along each of them is.
    pub stops: Vec<(DVec2, Color)>,
    pub gradient_type: GradientType,
    pub start: DVec2,
    pub end: DVec2,
    pub transform: DAffine2,
}

/// What the inside of a shape is painted with.
#[derive(Debug)]
pub enum Fill {
    Unfilled,
    Solid(Color),
    Gradient(Gradient),
}

/// The shape of a stroke at its open ends.
#[derive(Clone, Copy, Debug, PartialEq, Eq, Structural)]
pub enum StrokeCap {
    Butt,
    Round,
    Square,
}

/// The shape of a stroke at corners.
#[derive(Clone, Copy, Debug, PartialEq, Eq, Structural)]
pub enum StrokeJoin {
    Miter,
    Bevel,
    Round,
}

/// On which side of the path a stroke runs.
#[derive(Clone, Copy, Debug, PartialEq, Eq, Structural)]
pub enum StrokeAlign {
    Center,
    Inside,
    Outside,
}

/// Which of the fill and the stroke is painted over the other.
#[derive(Clone, Copy, Debug, PartialEq, Eq, Structural)]
pub enum PaintOrder {
    StrokeAbove,
    StrokeBelow,
}

/// What the outline of a shape is painted with.
#[derive(Debug)]
pub struct Stroke {
    pub color: Option<Color>,
    pub weight: DVec2,
    /// The lengths of dashes and gaps in turn.
    pub dash_lengths: Vec<DVec2>,
    pub dash_offset: DVec2,
    pub cap: StrokeCap,
    pub join: StrokeJoin,
    pub join_miter_limit: DVec2,
    pub align: StrokeAlign,
    pub transform: DAffine2,
    pub non_scaling: bool,
    pub paint_order: PaintOrder,
}

/// What a shape is painted with.
#[derive(Debug)]
pub struct PathStyle {
    pub fill: Fill,
    pub stroke: Option<Stroke>,
}

/// What a gradient holds.
pub struct GradientView {
    pub stops: Seq<(DVec2, Color)>,
    pub gradient_type: GradientType,
    pub start: DVec2,
    pub end: DVec2,
    pub transform: DAffine2,
}

/// What a fill is.
pub enum FillView {
    Unfilled,
    Solid(Color),
    Gradient(GradientView),
}

/// What a stroke holds.
pub struct StrokeView {
    pub color: Option<Color>,
    pub weight: DVec2,
    pub dash_lengths: Seq<DVec2>,
    pub dash_offset: DVec2,
    pub cap: StrokeCap,
    pub join: StrokeJoin,
    pub join_miter_limit: DVec2,
    pub align: StrokeAlign,
    pub transform: DAffine2,
    pub non_scaling: bool,
    pub paint_order: PaintOrder,
}

/// What a style holds.
pub struct StyleView {
    pub fill: FillView,
    pub stroke: Option<StrokeView>,
}

impl View for Gradient {
    type V = GradientView;

    open spec fn view(&self) -> GradientView {
        GradientView {
            stops: self.stops@,
            gradient_type: self.gradient_type,
            start: self.start,
            end: self.end,
            transform: self.transform,
        }
    }
}

impl View for Fill {
    type V = FillView;

    open spec fn view(&self) -> FillView {
        match *self {
            Fill::Unfilled => FillView::Unfilled,
            Fill::Solid(color) => FillView::Solid(color),
            Fill::Gradient(gradient) => FillView::Gradient(gradient@),
        }
    }
}

impl View for Stroke {
    type V = StrokeView;

    open spec fn view(&self) -> StrokeView {
        StrokeView {
            color: self.color,
            weight: self.weight,
            dash_lengths: self.dash_lengths@,
            dash_offset: self.dash_offset,
            cap: self.cap,
            join: self.join,
            join_miter_limit: self.join_miter_limit,
            align: self.align,
            transform: self.transform,
            non_scaling: self.non_scaling,
            paint_order: self.paint_order,
        }
    }
}

impl View for PathStyle {
    type V = StyleView;

    open spec fn view(&self) -> StyleView {
        StyleView {
            fill: self.fill@,
            stroke: match self.stroke {
                Some(stroke) => Some(stroke@),
                None => None,
            },
        }
    }
}

impl StyleView {
    /// The style with another transform of its stroke, if there is one.
    pub open spec fn with_stroke_transform(self, transform: DAffine2) -> StyleView {
        StyleView {
            stroke: match self.stroke {
                Some(stroke) => Some(StrokeView { transform, ..stroke }),
                None => None,
            },
            ..self
        }
    }
}

impl Gradient {
    pub fn duplicate(&self) -> (copy: Gradient)
        ensures
            copy@ == self@,
    {
        let mut stops: Vec<(DVec2, Color)> = Vec::new();
        append_copies(&mut stops, &self.stops);
        proof {
            assert(stops@ == self.stops@);
        }
        Gradient { stops, gradient_type: self.gradient_type, start: self.start, end: self.end, transform: self.transform }
    }
}

impl Stroke {
    pub fn duplicate(&self) -> (copy: Stroke)
        ensures
            copy@ == self@,
    {
        let mut dash_lengths: Vec<DVec2> = Vec::new();
        append_copies(&mut dash_lengths, &self.dash_lengths);
        proof {
            assert(dash_lengths@ == self.dash_lengths@);
        }
        Stroke {
            color: self.color,
            weight: self.weight,
            dash_lengths,
            dash_offset: self.dash_offset,
            cap: self.cap,
            join: self.join,
            join_miter_limit: self.join_miter_limit,
            align: self.align,
            transform: self.transform,
            non_scaling: self.non_scaling,
            paint_order: self.paint_order,
        }
    }
}

impl PathStyle {
    /// Gives the stroke, if there is one, another transform.
    pub fn set_stroke_transform(&mut self, transform: DAffine2)
        ensures
            final(self)@ == old(self)@.with_stroke_transform(transform),
    {
        if let Some(stroke) = &mut self.stroke {
            stroke.transform = transform;
        }
    }
}

/// A shape of a table, as far as it matters for painting: its style and its transform.
#[derive(Debug)]
pub struct StyledRow {
    pub style: PathStyle,
    pub transform: DAffine2,
}

/// The transforms of rows.
pub open spec fn transforms_of(rows: Seq<StyledRow>) -> Seq<DAffine2> {
    rows.map_values(|row: StyledRow| row.transform)
}

/// How far along the gradient the color of one of the rows is: along all of it once if it repeats after
/// no rows, and otherwise along all of it within so many rows.
pub open spec fn color_factor(index: int, length: nat, repeat_every: u32) -> DVec2 {
    if repeat_every == 0 {
        quotient(number_of(index as u64), number_of((if length <= 1 { 1 } else { length - 1 }) as u64))
    } else if repeat_every == 1 {
        zero()
    } else {
        quotient(remainder_of(number_of(index as u64), number_of(repeat_every as u64)), number_of((repeat_every - 1) as u64))
    }
}

/// How far along the gradient the color of each row is: at random, or evenly.
pub fn color_factors(length: usize, randomize: bool, seed: u64, repeat_every: u32) -> (factors: Vec<DVec2>)
    ensures
        factors@.len() == length,
        !randomize ==> forall|i: int| 0 <= i < length ==> #[trigger] factors@[i] == color_factor(i, length as nat, repeat_every),
        randomize ==> exists|generators: Seq<rand::rngs::StdRng>| #[trigger] are_drawn_for(seed, generators, factors@),
{
    let mut generator: rand::rngs::StdRng = seeded(seed);
    let ghost mut generators: Seq<rand::rngs::StdRng> = seq![generator];
    let mut factors: Vec<DVec2> = Vec::new();
    let mut i: usize = 0;
    while i < length
        invariant
            i <= length,
            factors@.len() == i,
            randomize ==> are_drawn_for(seed, generators, factors@) && generators.last() == generator,
            !randomize ==> forall|k: int| 0 <= k < i ==> #[trigger] factors@[k] == color_factor(k, length as nat, repeat_every),
        decreases length - i,
    {
        let factor: DVec2 = if randomize {
            random_fraction(&mut generator)
        } else if repeat_every == 0 {
            let steps: usize = if length <= 1 {
                1
            } else {
                length - 1
            };
            divide(number(i as u64), number(steps as u64))
        } else if repeat_every == 1 {
            splat(0)
        } else {
            divide(remainder(number(i as u64), number(repeat_every as u64)), number((repeat_every - 1) as u64))
        };
        proof {
            if randomize {
                lemma_draw(generators, factors@, factor, generator);
                generators = generators.push(generator);
            }
        }
        factors.push(factor);
        i += 1;
    }
    proof {
        if randomize {
            assert(are_drawn_for(seed, generators, factors@));
        }
    }
    factors
}

/// A style with a color for the fill, the stroke or both. Where there is no stroke, none is added.
pub open spec fn colored(style: StyleView, color: Color, fill: bool, stroke: bool) -> StyleView {
    StyleView {
        fill: if fill {
            FillView::Solid(color)
        } else {
            style.fill
        },
        stroke: match style.stroke {
            Some(old_stroke) if stroke => Some(StrokeView { color: Some(color), ..old_stroke }),
            other => other,
        },
    }
}

/// Gives each row its color, for the fill, the stroke or both. The rows are those of a table, or of the
/// tables directly within a group, one after the other.
pub fn assign_colors(rows: &mut Vec<StyledRow>, fill: bool, stroke: bool, colors: &Vec<Color>)
    requires
        colors@.len() == old(rows)@.len(),
    ensures
        final(rows)@.len() == old(rows)@.len(),
        transforms_of(final(rows)@) == transforms_of(old(rows)@),
        forall|i: int|
            0 <= i < old(rows)@.len() ==> (#[trigger] final(rows)@[i]).style@ == colored(old(rows)@[i].style@, colors@[i], fill, stroke),
{
    let ghost before = rows@;
    let mut i: usize = 0;
    while i < rows.len()
        invariant
            i <= rows.len(),
            colors@.len() == before.len(),
            rows@.len() == before.len(),
            forall|k: int| 0 <= k < before.len() ==> (#[trigger] rows@[k]).transform == before[k].transform,
            forall|k: int| 0 <= k < i ==> (#[trigger] rows@[k]).style@ == colored(before[k].style@, colors@[k], fill, stroke),
            forall|k: int| i <= k < before.len() ==> #[trigger] rows@[k] == before[k],
        decreases rows.len() - i,
    {
        let color: Color = colors[i];
        let ghost row = rows@[i as int];
        if fill {
            rows[i].style.fill = Fill::Solid(color);
        }
        if stroke {
            if let Some(old_stroke) = &mut rows[i].style.stroke {
                old_stroke.color = Some(color);
            }
        }
        proof {
            assert(row == before[i as int]);
            assert(rows@[i as int].style@ == colored(row.style@, color, fill, stroke));
        }
        i += 1;
    }
    proof {
        assert(transforms_of(rows@) == transforms_of(before));
    }
}

/// A fill for a shape: a gradient also follows the shape's transform.
pub open spec fn fitted_fill(fill: FillView, transform: DAffine2) -> FillView {
    match fill {
        FillView::Gradient(gradient) => FillView::Gradient(
            GradientView { transform: composition(gradient.transform, transform), ..gradient },
        ),
        other => other,
    }
}

/// Paints the inside of each row.
pub fn fill(rows: &mut Vec<StyledRow>, fill: &Fill)
    ensures
        final(rows)@.len() == old(rows)@.len(),
        transforms_of(final(rows)@) == transforms_of(old(rows)@),
        forall|i: int|
            0 <= i < old(rows)@.len() ==> (#[trigger] final(rows)@[i]).style@ == (StyleView {
                fill: fitted_fill(fill@, old(rows)@[i].transform),
                ..old(rows)@[i].style@
            }),
{
    let ghost before = rows@;
    let mut i: usize = 0;
    while i < rows.len()
        invariant
            i <= rows.len(),
            rows@.len() == before.len(),
            forall|k: int| 0 <= k < before.len() ==> (#[trigger] rows@[k]).transform == before[k].transform,
            forall|k: int|
                0 <= k < i ==> (#[trigger] rows@[k]).style@ == (StyleView {
                    fill: fitted_fill(fill@, before[k].transform),
                    ..before[k].style@
                }),
            forall|k: int| i <= k < before.len() ==> #[trigger] rows@[k] == before[k],
        decreases rows.len() - i,
    {
        let transform: DAffine2 = rows[i].transform;
        let fitted: Fill = match fill {
            Fill::Unfilled => Fill::Unfilled,
            Fill::Solid(color) => Fill::Solid(*color),
            Fill::Gradient(gradient) => {
                let mut own: Gradient = gradient.duplicate();
                own.transform = compose(own.transform, transform);
                Fill::Gradient(own)
            },
        };
        proof {
            assert(rows@[i as int] == before[i as int]);
            assert(fitted@ == fitted_fill(fill@, transform));
        }
        rows[i].style.fill = fitted;
        i += 1;
    }
    proof {
        assert(transforms_of(rows@) == transforms_of(before));
    }
}

/// Paints the outline of each row. The stroke follows the row's transform and scales with it.
pub fn stroke(rows: &mut Vec<StyledRow>, stroke: &Stroke)
    ensures
        final(rows)@.len() == old(rows)@.len(),
        transforms_of(final(rows)@) == transforms_of(old(rows)@),
        forall|i: int|
            0 <= i < old(rows)@.len() ==> (#[trigger] final(rows)@[i]).style@ == (StyleView {
                stroke: Some(
                    StrokeView {
                        transform: composition(identity(), old(rows)@[i].transform),
                        non_scaling: false,
                        ..stroke@
                    },
                ),
                ..old(rows)@[i].style@
            }),
{
    let ghost before = rows@;
    let mut i: usize = 0;
    while i < rows.len()
        invariant
            i <= rows.len(),
            rows@.len() == before.len(),
            forall|k: int| 0 <= k < before.len() ==> (#[trigger] rows@[k]).transform == before[k].transform,
            forall|k: int|
                0 <= k < i ==> (#[trigger] rows@[k]).style@ == (StyleView {
                    stroke: Some(
                        StrokeView { transform: composition(identity(), before[k].transform), non_scaling: false, ..stroke@ },
                    ),
                    ..before[k].style@
                }),
            forall|k: int| i <= k < before.len() ==> #[trigger] rows@[k] == before[k],
        decreases rows.len() - i,
    {
        let transform: DAffine2 = rows[i].transform;
        proof {
            assert(rows@[i as int] == before[i as int]);
        }
        let mut own: Stroke = stroke.duplicate();
        own.transform = compose(from_translation(splat(0)), transform);
        own.non_scaling = false;
        rows[i].style.stroke = Some(own);
        i += 1;
    }
    proof {
        assert(transforms_of(rows@) == transforms_of(before));
    }
}

/// What the outline of a stroke is computed from.
#[derive(Debug)]
pub struct StrokeSettings {
    pub weight: DVec2,
    pub cap: StrokeCap,
    pub join: StrokeJoin,
    pub dash_offset: DVec2,
    pub dash_lengths: Vec<DVec2>,
    pub miter_limit: DVec2,
}

/// The stroke that is turned into a fill: that of the style, or the default one.
pub open spec fn solid_stroke(style: StyleView, default_stroke: StrokeView) -> StrokeView {
    match style.stroke {
        Some(stroke) => stroke,
        None => default_stroke,
    }
}

/// The style of a stroke turned into a fill: filled with the stroke's color, with the default stroke. Of
/// a style without a stroke nothing is left.
pub open spec fn solid_style(style: StyleView, default_stroke: StrokeView) -> StyleView {
    match style.stroke {
        Some(stroke) => StyleView {
            fill: match stroke.color {
                Some(color) => FillView::Solid(color),
                None => FillView::Unfilled,
            },
            stroke: Some(default_stroke),
        },
        None => StyleView { fill: FillView::Unfilled, stroke: None },
    }
}

/// Turns a stroke into a fill: returns what its outline is computed from, and the style to paint that
/// outline with.
pub fn solidify_stroke(style: &PathStyle, default_stroke: &Stroke) -> (result: (StrokeSettings, PathStyle))
    ensures
        ({
            let stroke = solid_stroke(style@, default_stroke@);
            &&& result.0.weight == stroke.weight
            &&& result.0.cap == stroke.cap
            &&& result.0.join == stroke.join
            &&& result.0.dash_offset == stroke.dash_offset
            &&& result.0.dash_lengths@ == stroke.dash_lengths
            &&& result.0.miter_limit == stroke.join_miter_limit
        }),
        result.1@ == solid_style(style@, default_stroke@),
{
    let chosen: Stroke = match &style.stroke {
        Some(stroke) => stroke.duplicate(),
        None => default_stroke.duplicate(),
    };
    let solid: PathStyle = match &style.stroke {
        Some(stroke) => PathStyle {
            fill: match stroke.color {
                Some(color) => Fill::Solid(color),
                None => Fill::Unfilled,
            },
            stroke: Some(default_stroke.duplicate()),
        },
        None => PathStyle { fill: Fill::Unfilled, stroke: None },
    };
    let settings: StrokeSettings = StrokeSettings {
        weight: chosen.weight,
        cap: chosen.cap,
        join: chosen.join,
        dash_offset: chosen.dash_offset,
        dash_lengths: chosen.dash_lengths,
        miter_limit: chosen.join_miter_limit,
    };
    (settings, solid)
}

/// Painting twice is painting the second time only: a fill replaces the fill that was there and leaves the
/// stroke, and the other way around.
pub proof fn painting_replaces(style: StyleView, color: Color, other: Color, fill: bool, stroke: bool)
    ensures
        colored(colored(style, color, fill, stroke), other, fill, stroke) == colored(style, other, fill, stroke),
        !fill ==> colored(style, color, fill, stroke).fill == style.fill,
        !stroke ==> colored(style, color, fill, stroke).stroke == style.stroke,
{
}

} // verus!

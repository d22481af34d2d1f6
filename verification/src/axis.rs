//! What every scale shares: normalised positions, ticks, labellers and the
//! `Scale` contract itself.
use vstd::prelude::*;

verus! {

/// A position along an axis, held as the exact ratio `offset / span`.
///
/// Zero is the start of the scale's range and one is its end; a value outside
/// the range has a position below zero or above one.
#[derive(Clone, Copy, Debug, PartialEq, Eq, Structural)]
pub struct NormalisedValue {
    /// How far the value lies from the start of the range.
    pub offset: i128,
    /// The width the offset is measured against, never zero.
    pub span: i128,
}

impl NormalisedValue {
    /// A position has a span to be measured against.
    pub open spec fn wf(self) -> bool {
        self.span != 0
    }
}

impl View for NormalisedValue {
    type V = real;

    open spec fn view(&self) -> real {
        self.offset as real / self.span as real
    }
}

/// A mark on an axis: where it sits and, if the scale has a labeller, what it
/// reads.
#[derive(Clone, Debug, PartialEq)]
pub struct Tick {
    /// The position of the mark along the axis.
    pub location: NormalisedValue,
    /// The text shown beside the mark.
    pub label: Option<String>,
}

impl Tick {
    /// The text of the label, if there is one.
    pub open spec fn label_text(self) -> Option<Seq<char>> {
        match self.label {
            Some(text) => Some(text@),
            None => None,
        }
    }
}

/// Turns a value of a scale's domain into the text shown beside its tick.
pub trait Labeller {
    /// Whether `text` is a label this labeller may give to `value`.
    ///
    /// A labeller whose text depends on nothing but the value admits exactly
    /// one text per value; one that consults its surroundings admits several.
    /// Unless a labeller says otherwise, any text may be a label.
    open spec fn labels(&self, value: i64, text: Seq<char>) -> bool {
        true
    }

    /// The label of `value`.
    fn label(&self, value: i64) -> (text: String)
        ensures
            self.labels(value, text@),
    ;
}

/// What a scale offers to whoever draws an axis or a series: the position of
/// any value of its domain, and the ticks to mark along the axis.
pub trait Scale {
    /// The values of the scale's domain.
    type Scalar;

    /// The values at which the scale places its ticks, in the order in which
    /// they are drawn.
    spec fn tick_values(&self) -> Seq<Self::Scalar>;

    /// Where on the axis a value of the domain falls.
    spec fn position_of(&self, value: Self::Scalar) -> real;

    /// Whether a tick at `value` may carry `label`.
    spec fn labelled(&self, value: Self::Scalar, label: Option<Seq<char>>) -> bool;

    /// The ticks to draw: one for each tick value, at the position of that
    /// value and with a label the scale allows for it.
    fn ticks(&self) -> (ticks: Vec<Tick>)
        ensures
            ticks@.len() == self.tick_values().len(),
            forall|k: int|
                #![trigger ticks@[k]]
                0 <= k < ticks@.len() ==> {
                    &&& ticks@[k].location.wf()
                    &&& ticks@[k].location@ == self.position_of(self.tick_values()[k])
                    &&& self.labelled(self.tick_values()[k], ticks@[k].label_text())
                },
    ;

    /// The position of `value`: zero at the start of the range, one at its
    /// end, and beyond either for values outside the range.
    fn normalise(&self, value: Self::Scalar) -> (location: NormalisedValue)
        ensures
            location.wf(),
            location@ == self.position_of(value),
    ;
}

/// The width against which offsets from `start` are measured: the width of the
/// range, or one where the range is empty so that no position divides by zero.
pub open spec fn span_of(start: int, end: int) -> int {
    if end != start {
        end - start
    } else {
        1
    }
}

/// Where `value` falls on an axis that runs from `start` to `end`.
pub open spec fn position(start: int, end: int, value: int) -> real {
    (value - start) as real / span_of(start, end) as real
}

/// Whether `label` is what a tick at `value` may carry: a text that the
/// labeller gives to `value`, or nothing where there is no labeller.
pub open spec fn label_fits<L: Labeller>(
    labeller: Option<L>,
    value: i64,
    label: Option<Seq<char>>,
) -> bool {
    match labeller {
        Some(labeller) => label matches Some(text) && labeller.labels(value, text),
        None => label is None,
    }
}

/// Whether `tick` marks `value` on an axis from `start` to `end`: it sits at
/// the offset of `value` from `start`, measured against the span of the axis,
/// and carries a fitting label.
pub open spec fn tick_fits<L: Labeller>(
    start: int,
    end: int,
    labeller: Option<L>,
    value: i64,
    tick: Tick,
) -> bool {
    &&& tick.location.offset == value - start
    &&& tick.location.span == span_of(start, end)
    &&& label_fits(labeller, value, tick.label_text())
}

/// Whether `ticks` marks `values`, one tick for each value and in the same
/// order, on an axis from `start` to `end`.
pub open spec fn ticks_fit<L: Labeller>(
    start: int,
    end: int,
    labeller: Option<L>,
    values: Seq<int>,
    ticks: Seq<Tick>,
) -> bool {
    &&& ticks.len() == values.len()
    &&& forall|k: int|
        #![trigger ticks[k]]
        0 <= k < ticks.len() ==> tick_fits(start, end, labeller, values[k] as i64, ticks[k])
}

/// The start of a range that is not empty sits at position zero, and its end
/// at position one.
pub proof fn lemma_position_of_ends(start: int, end: int)
    by (nonlinear_arith)
    requires
        start != end,
    ensures
        position(start, end, start) == 0 as real,
        position(start, end, end) == 1 as real,
{
}

/// In an empty range, the one value of the range sits at position zero.
pub proof fn lemma_position_in_empty_range(start: int)
    by (nonlinear_arith)
    ensures
        position(start, start, start) == 0 as real,
{
}

/// Positions keep the order of the values on a range that runs upwards (an
/// empty range counts as such), and reverse it on a range that runs
/// downwards.
pub proof fn lemma_position_monotonic(start: int, end: int, x1: int, x2: int)
    by (nonlinear_arith)
    requires
        x1 < x2,
    ensures
        start <= end ==> position(start, end, x1) < position(start, end, x2),
        start > end ==> position(start, end, x1) > position(start, end, x2),
{
}

/// Where `n` steps lead from the start of a range exactly to its end, the
/// value after `k` of them sits at `k / n` of the axis.
pub proof fn lemma_position_of_step(start: int, end: int, step: int, n: int, k: int)
    by (nonlinear_arith)
    requires
        n >= 1,
        step != 0,
        end - start == n * step,
    ensures
        position(start, end, start + k * step) == k as real / n as real,
{
}

/// Whether a labeller names each value in one way only, so that asking it
/// twice gives the same text twice. No labeller at all counts as such.
pub open spec fn names_uniquely<L: Labeller>(labeller: Option<L>) -> bool {
    labeller matches Some(l) ==> forall|value: i64, a: Seq<char>, b: Seq<char>|
        l.labels(value, a) && l.labels(value, b) ==> a == b
}

/// Asking a scale for its ticks twice gives the same ticks twice: any two
/// lists that mark the same values on the same axis agree on every location,
/// and on every label too where the labeller names each value in one way
/// only.
pub proof fn lemma_ticks_determined<L: Labeller>(
    start: int,
    end: int,
    labeller: Option<L>,
    values: Seq<int>,
    first: Seq<Tick>,
    second: Seq<Tick>,
)
    requires
        ticks_fit(start, end, labeller, values, first),
        ticks_fit(start, end, labeller, values, second),
    ensures
        first.len() == second.len(),
        forall|k: int| 0 <= k < first.len() ==> first[k].location == second[k].location,
        names_uniquely(labeller) ==> forall|k: int|
            0 <= k < first.len() ==> first[k].label_text() == second[k].label_text(),
{
    assert forall|k: int| 0 <= k < first.len() implies first[k].location == second[k].location by {
        assert(tick_fits(start, end, labeller, values[k] as i64, first[k]));
        assert(tick_fits(start, end, labeller, values[k] as i64, second[k]));
    }
    if names_uniquely(labeller) {
        assert forall|k: int| 0 <= k < first.len() implies first[k].label_text()
            == second[k].label_text() by {
            assert(tick_fits(start, end, labeller, values[k] as i64, first[k]));
            assert(tick_fits(start, end, labeller, values[k] as i64, second[k]));
        }
    }
}

} // verus!

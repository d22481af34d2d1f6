//! A scale over a range of whole numbers. A step gives the interval between
//! ticks; the end of the range always carries a tick of its own.
use vstd::prelude::*;
use std::ops::Range;
use crate::axis::{
    label_fits, lemma_position_in_empty_range, lemma_position_of_ends, lemma_position_of_step,
    position, span_of, tick_fits, ticks_fit, NormalisedValue, Scale, Tick,
};
use crate::steps::{
    lemma_step_count, lemma_stepped_first, lemma_stepped_none, lemma_stepped_within, stepped,
};
pub use crate::axis::Labeller;

verus! {

/// The values at which a scale from `start` to `end` places its ticks: the
/// start and every further step from it that stays short of the end, and
/// then the end itself, whether or not a step lands on it.
///
/// With a zero step there is the one tick at the start where the range is
/// empty, and no tick at all where it is not.
pub open spec fn linear_tick_values(start: int, end: int, step: int) -> Seq<int> {
    if step > 0 {
        stepped(start, end - 1, step).push(end)
    } else if step < 0 {
        stepped(start, end + 1, step).push(end)
    } else if start == end {
        seq![start]
    } else {
        Seq::empty()
    }
}

/// Every tick value lies between the two ends of the range, the ends
/// included; and where the step is not zero, the last tick value is the end
/// of the range.
pub proof fn lemma_linear_ticks_within(start: int, end: int, step: int, k: int)
    requires
        0 <= k < linear_tick_values(start, end, step).len(),
    ensures
        start <= linear_tick_values(start, end, step)[k] <= end || end <= linear_tick_values(
            start,
            end,
            step,
        )[k] <= start,
        step != 0 ==> linear_tick_values(start, end, step).last() == end,
{
    if step != 0 {
        let bound = if step > 0 { end - 1 } else { end + 1 };
        if k < stepped(start, bound, step).len() {
            lemma_stepped_within(start, bound, step, k);
        }
    }
}

/// Where `n` steps lead from the start of the range exactly to its end, the
/// scale has `n + 1` ticks: one every step, the last of them on the end and
/// there only once, and the tick after `k` steps at `k / n` of the axis.
pub proof fn lemma_even_linear_ticks(start: int, end: int, step: int, n: int)
    requires
        n >= 1,
        step != 0,
        end - start == n * step,
    ensures
        linear_tick_values(start, end, step).len() == n + 1,
        forall|k: int|
            0 <= k <= n ==> #[trigger] linear_tick_values(start, end, step)[k] == start + k * step
                && position(start, end, start + k * step) == k as real / n as real,
{
    let bound = if step > 0 { end - 1 } else { end + 1 };
    assert(n * step == (n - 1) * step + step) by (nonlinear_arith);
    lemma_step_count(start, bound, step, n);
    assert forall|k: int| 0 <= k <= n implies #[trigger] linear_tick_values(start, end, step)[k]
        == start + k * step && position(start, end, start + k * step) == k as real / n as real by {
        lemma_position_of_step(start, end, step, n, k);
    }
}

/// Walks from one value towards another by a fixed step, yields every value
/// short of the last one, and then the last one.
pub struct LinearScaleInclusiveIter {
    pub from: i64,
    pub to: i64,
    pub step: i64,
    pub first_time: bool,
    pub last_time: bool,
}

impl LinearScaleInclusiveIter {
    /// The values still to be yielded, in order.
    pub open spec fn remaining(self) -> Seq<int> {
        if self.last_time {
            Seq::empty()
        } else if self.first_time {
            linear_tick_values(self.from as int, self.to as int, self.step as int)
        } else if self.step != 0 {
            linear_tick_values(self.from + self.step, self.to as int, self.step as int)
        } else {
            Seq::empty()
        }
    }

    /// Where the walk stands after one more call of `next`: on its first call
    /// it stays where it started, and so it does once the end has been
    /// yielded; on every other call it moves on by a step, unless the step
    /// would take it beyond the integers.
    pub open spec fn moved(self) -> int {
        if !self.first_time && !self.last_time && i64::MIN <= self.from + self.step <= i64::MAX {
            self.from + self.step
        } else {
            self.from as int
        }
    }

    /// Yields the next value, or `None` once the last one has been yielded.
    /// The call that yields the last value, the end of the range, marks the
    /// walk as done.
    pub fn next(&mut self) -> (item: Option<i64>)
        ensures
            old(self).remaining().len() == 0 ==> item is None && final(self).remaining().len() == 0,
            old(self).remaining().len() > 0 ==> item is Some && item->0 == old(self).remaining()[0]
                && final(self).remaining() == old(self).remaining().skip(1),
            final(self).from == old(self).moved(),
            final(self).to == old(self).to,
            final(self).step == old(self).step,
            !final(self).first_time,
            final(self).last_time == (old(self).last_time || old(self).remaining().len() == 1),
    {
        let first = self.first_time;
        self.first_time = false;
        if self.last_time {
            return None;
        }
        if self.step == 0 {
            if first && self.from == self.to {
                self.last_time = true;
                assert(old(self).remaining().skip(1) =~= Seq::<int>::empty());
                return Some(self.to);
            }
            return None;
        }
        let candidate = if !first {
            match self.from.checked_add(self.step) {
                Some(value) => {
                    self.from = value;
                    Some(value)
                },
                None => None,
            }
        } else {
            Some(self.from)
        };
        proof {
            let to = self.to as int;
            let step = self.step as int;
            let bound = if step > 0 { to - 1 } else { to + 1 };
            let start = if old(self).first_time { old(self).from as int } else { old(self).from + step };
            let rest = stepped(start + step, bound, step);
            if (step > 0 && start <= bound) || (step < 0 && start >= bound) {
                lemma_stepped_first(start, bound, step);
                assert((seq![start] + rest).push(to).skip(1) =~= rest.push(to));
                assert((seq![start] + rest).push(to)[0] == start);
            } else {
                lemma_stepped_none(start, bound, step);
                assert(Seq::<int>::empty().push(to).skip(1) =~= Seq::<int>::empty());
            }
        }
        match candidate {
            Some(value) => {
                if (self.step > 0 && value < self.to) || (self.step < 0 && value > self.to) {
                    Some(value)
                } else {
                    self.last_time = true;
                    Some(self.to)
                }
            },
            None => {
                self.last_time = true;
                Some(self.to)
            },
        }
    }
}

/// A scale over a range of whole numbers, with the interval between its ticks
/// and, if it labels them, the labeller that names each value.
///
/// The range may run backwards, from a greater value to a smaller one; the
/// step is then negative.
pub struct LinearScale<L: Labeller> {
    range_start: i64,
    range_end: i64,
    step: i64,
    span: i128,
    labeller: Option<L>,
}

impl<L: Labeller> LinearScale<L> {
    #[verifier::type_invariant]
    spec fn span_is_kept(&self) -> bool {
        self.span == span_of(self.range_start as int, self.range_end as int)
    }

    /// The value at which the range starts.
    pub closed spec fn start(&self) -> i64 {
        self.range_start
    }

    /// The value at which the range ends.
    pub closed spec fn end(&self) -> i64 {
        self.range_end
    }

    /// The interval between two ticks.
    pub closed spec fn step(&self) -> i64 {
        self.step
    }

    /// The labeller that names the ticks, if the scale labels them.
    pub closed spec fn labeller(&self) -> Option<L> {
        self.labeller
    }

    /// The values at which the scale places its ticks.
    pub open spec fn tick_points(&self) -> Seq<int> {
        linear_tick_values(self.start() as int, self.end() as int, self.step() as int)
    }

    /// Creates a scale over `range` with a tick every `step`, named by
    /// `labeller`, or without labels where there is none.
    pub fn with_labeller(range: Range<i64>, step: i64, labeller: Option<L>) -> (scale: Self)
        ensures
            scale.start() == range.start,
            scale.end() == range.end,
            scale.step() == step,
            scale.labeller() == labeller,
    {
        let range_start = range.start;
        let range_end = range.end;
        let delta: i128 = range_end as i128 - range_start as i128;
        let span: i128 = if delta != 0 { delta } else { 1 };
        LinearScale { range_start, range_end, step, span, labeller }
    }

    fn tick(&self, value: i64) -> (tick: Tick)
        ensures
            tick_fits(self.start() as int, self.end() as int, self.labeller(), value, tick),
    {
        let location = self.normalise(value);
        let label = match &self.labeller {
            Some(labeller) => Some(labeller.label(value)),
            None => None,
        };
        Tick { location, label }
    }
}

impl LinearScale<IntegerLabeller> {
    /// Creates a scale over `range` with a tick every `step`, each named by
    /// its value in base ten.
    pub fn new(range: Range<i64>, step: i64) -> (scale: Self)
        ensures
            scale.start() == range.start,
            scale.end() == range.end,
            scale.step() == step,
            scale.labeller() == Some(IntegerLabeller),
    {
        Self::with_labeller(range, step, Some(IntegerLabeller))
    }
}

impl<L: Labeller + Clone> Clone for LinearScale<L> {
    /// A second handle on the same scale: same range, same step, and a clone
    /// of its labeller.
    fn clone(&self) -> (copy: Self)
        ensures
            copy.start() == self.start(),
            copy.end() == self.end(),
            copy.step() == self.step(),
            self.labeller() is None ==> copy.labeller() is None,
            self.labeller() matches Some(labeller) ==> copy.labeller() matches Some(copied)
                && cloned(labeller, copied),
    {
        proof {
            use_type_invariant(self);
        }
        let labeller = self.labeller.clone();
        LinearScale {
            range_start: self.range_start,
            range_end: self.range_end,
            step: self.step,
            span: self.span,
            labeller,
        }
    }
}

impl<L: Labeller> Scale for LinearScale<L> {
    type Scalar = i64;

    open spec fn tick_values(&self) -> Seq<i64> {
        self.tick_points().map_values(|point: int| point as i64)
    }

    open spec fn position_of(&self, value: i64) -> real {
        position(self.start() as int, self.end() as int, value as int)
    }

    open spec fn labelled(&self, value: i64, label: Option<Seq<char>>) -> bool {
        label_fits(self.labeller(), value, label)
    }

    fn ticks(&self) -> (ticks: Vec<Tick>)
        ensures
            ticks_fit(
                self.start() as int,
                self.end() as int,
                self.labeller(),
                self.tick_points(),
                ticks@,
            ),
    {
        let mut iter = LinearScaleInclusiveIter {
            from: self.range_start,
            to: self.range_end,
            step: self.step,
            first_time: true,
            last_time: false,
        };
        let mut ticks: Vec<Tick> = Vec::new();
        let ghost points = self.tick_points();
        loop
            invariant
                points == self.tick_points(),
                ticks@.len() <= points.len(),
                iter.remaining() == points.skip(ticks@.len() as int),
                forall|k: int|
                    #![trigger ticks@[k]]
                    0 <= k < ticks@.len() ==> tick_fits(
                        self.start() as int,
                        self.end() as int,
                        self.labeller(),
                        points[k] as i64,
                        ticks@[k],
                    ),
            ensures
                ticks@.len() == points.len(),
            decreases iter.remaining().len(),
        {
            match iter.next() {
                Some(value) => {
                    let tick = self.tick(value);
                    ticks.push(tick);
                },
                None => {
                    break ;
                },
            }
        }
        ticks
    }

    fn normalise(&self, value: i64) -> (location: NormalisedValue)
        ensures
            location.offset == value - self.start(),
            location.span == span_of(self.start() as int, self.end() as int),
            value == self.start() ==> location@ == 0 as real,
            value == self.end() && self.start() != self.end() ==> location@ == 1 as real,
    {
        proof {
            use_type_invariant(self);
            if self.start() != self.end() {
                lemma_position_of_ends(self.start() as int, self.end() as int);
            } else {
                lemma_position_in_empty_range(self.start() as int);
            }
        }
        NormalisedValue { offset: value as i128 - self.range_start as i128, span: self.span }
    }
}

/// The character that stands for a single decimal digit.
pub open spec fn digit_char(digit: int) -> char {
    if digit == 0 {
        '0'
    } else if digit == 1 {
        '1'
    } else if digit == 2 {
        '2'
    } else if digit == 3 {
        '3'
    } else if digit == 4 {
        '4'
    } else if digit == 5 {
        '5'
    } else if digit == 6 {
        '6'
    } else if digit == 7 {
        '7'
    } else if digit == 8 {
        '8'
    } else {
        '9'
    }
}

/// The decimal digits of a natural number, most significant first and
/// without leading zeros.
pub open spec fn decimal_digits(n: nat) -> Seq<char>
    decreases n,
{
    if n < 10 {
        seq![digit_char(n as int)]
    } else {
        decimal_digits(n / 10).push(digit_char((n % 10) as int))
    }
}

/// A whole number written in base ten, with a minus sign before a negative
/// one.
pub open spec fn decimal_text(value: int) -> Seq<char> {
    if value < 0 {
        seq!['-'] + decimal_digits((-value) as nat)
    } else {
        decimal_digits(value as nat)
    }
}

fn digit_text(digit: u64) -> (text: &'static str)
    requires
        digit < 10,
    ensures
        text@ == seq![digit_char(digit as int)],
{
    proof {
        reveal_strlit("0");
        reveal_strlit("1");
        reveal_strlit("2");
        reveal_strlit("3");
        reveal_strlit("4");
        reveal_strlit("5");
        reveal_strlit("6");
        reveal_strlit("7");
        reveal_strlit("8");
        reveal_strlit("9");
    }
    let text = if digit == 0 {
        "0"
    } else if digit == 1 {
        "1"
    } else if digit == 2 {
        "2"
    } else if digit == 3 {
        "3"
    } else if digit == 4 {
        "4"
    } else if digit == 5 {
        "5"
    } else if digit == 6 {
        "6"
    } else if digit == 7 {
        "7"
    } else if digit == 8 {
        "8"
    } else {
        "9"
    };
    assert(text@ =~= seq![digit_char(digit as int)]);
    text
}

fn append_digits(text: &mut String, n: u64)
    ensures
        final(text)@ == old(text)@ + decimal_digits(n as nat),
    decreases n,
{
    if n >= 10 {
        append_digits(text, n / 10);
    }
    text.append(digit_text(n % 10));
    assert(text@ =~= old(text)@ + decimal_digits(n as nat));
}

/// Names a value by writing it in base ten.
#[derive(Clone, Copy, Debug)]
pub struct IntegerLabeller;

impl Labeller for IntegerLabeller {
    /// The one label of a value is its decimal text.
    open spec fn labels(&self, value: i64, text: Seq<char>) -> bool {
        text == decimal_text(value as int)
    }

    fn label(&self, value: i64) -> (text: String) {
        let mut text = String::new();
        if value < 0 {
            proof {
                reveal_strlit("-");
            }
            text.append("-");
            append_digits(&mut text, (-(value as i128)) as u64);
        } else {
            append_digits(&mut text, value as u64);
        }
        assert(text@ =~= decimal_text(value as int));
        text
    }
}

} // verus!

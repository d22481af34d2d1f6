//! A scale over instants, counted in milliseconds since the Unix epoch. A step
//! is a signed number of milliseconds and gives the interval between ticks.
use vstd::prelude::*;
use std::ops::Range;
use chrono::{FixedOffset, Local, TimeZone, Utc};
use crate::axis::{
    label_fits, lemma_position_in_empty_range, lemma_position_of_ends, position, span_of,
    tick_fits, ticks_fit, NormalisedValue, Scale, Tick,
};
use crate::steps::{lemma_stepped_first, lemma_stepped_none, stepped};
pub use crate::axis::Labeller;

verus! {

/// Walks from one instant towards another by a fixed step and yields every
/// instant it lands on up to and including the last one, if it hits it.
pub struct TimeScaleInclusiveIter {
    pub time_from: i64,
    pub time_to: i64,
    pub step: i64,
    pub first_time: bool,
}

impl TimeScaleInclusiveIter {
    /// The instants still to be yielded, in order.
    pub open spec fn remaining(self) -> Seq<int> {
        if self.first_time {
            stepped(self.time_from as int, self.time_to as int, self.step as int)
        } else {
            stepped(self.time_from + self.step, self.time_to as int, self.step as int)
        }
    }

    /// Where the walk stands after one more call of `next`: on its first call
    /// it stays where it started, on every later one it moves on by a step,
    /// unless the step would take it beyond the integers.
    pub open spec fn moved(self) -> int {
        if !self.first_time && i64::MIN <= self.time_from + self.step <= i64::MAX {
            self.time_from + self.step
        } else {
            self.time_from as int
        }
    }

    /// Yields the next instant, or `None` once the walk has passed `time_to`.
    /// A walk with a zero step yields nothing.
    pub fn next(&mut self) -> (item: Option<i64>)
        ensures
            old(self).remaining().len() == 0 ==> item is None && final(self).remaining().len() == 0,
            old(self).remaining().len() > 0 ==> item is Some && item->0 == old(self).remaining()[0]
                && final(self).remaining() == old(self).remaining().skip(1),
            final(self).time_from == old(self).moved(),
            final(self).time_to == old(self).time_to,
            final(self).step == old(self).step,
            !final(self).first_time,
    {
        let time = if !self.first_time {
            match self.time_from.checked_add(self.step) {
                Some(t) => {
                    self.time_from = t;
                    Some(t)
                },
                None => None,
            }
        } else {
            self.first_time = false;
            Some(self.time_from)
        };
        proof {
            let from = old(self).time_from as int;
            let to = self.time_to as int;
            let step = self.step as int;
            let start = if old(self).first_time { from } else { from + step };
            if (step > 0 && start <= to) || (step < 0 && start >= to) {
                lemma_stepped_first(start, to, step);
                assert((seq![start] + stepped(start + step, to, step)).skip(1)
                    =~= stepped(start + step, to, step));
            } else {
                lemma_stepped_none(start, to, step);
                lemma_stepped_none(start + step, to, step);
            }
        }
        match time {
            Some(t) => {
                if (self.step > 0 && t <= self.time_to) || (self.step < 0 && t >= self.time_to) {
                    Some(t)
                } else {
                    None
                }
            },
            None => None,
        }
    }
}

/// A scale over a range of instants, with the interval between its ticks and,
/// if it labels them, the labeller that names each instant.
///
/// The range may run backwards, from a later instant to an earlier one; the
/// step then has to be negative for the scale to have ticks.
pub struct TimeScale<L: Labeller> {
    time_from: i64,
    time_to: i64,
    step: i64,
    span: i128,
    labeller: Option<L>,
}

impl<L: Labeller> TimeScale<L> {
    #[verifier::type_invariant]
    spec fn span_is_kept(&self) -> bool {
        self.span == span_of(self.time_from as int, self.time_to as int)
    }

    /// The instant at which the range starts.
    pub closed spec fn start(&self) -> i64 {
        self.time_from
    }

    /// The instant at which the range ends.
    pub closed spec fn end(&self) -> i64 {
        self.time_to
    }

    /// The interval between two ticks.
    pub closed spec fn step(&self) -> i64 {
        self.step
    }

    /// The labeller that names the ticks, if the scale labels them.
    pub closed spec fn labeller(&self) -> Option<L> {
        self.labeller
    }

    /// The instants at which the scale places its ticks: the start of the
    /// range and every further step from it that does not pass the end.
    pub open spec fn tick_instants(&self) -> Seq<int> {
        stepped(self.start() as int, self.end() as int, self.step() as int)
    }

    /// Creates a scale over `range` with ticks every `step` milliseconds, named
    /// by `labeller`, or without labels where there is none.
    pub fn with_labeller(range: Range<i64>, step: i64, labeller: Option<L>) -> (scale: Self)
        ensures
            scale.start() == range.start,
            scale.end() == range.end,
            scale.step() == step,
            scale.labeller() == labeller,
    {
        let time_from = range.start;
        let time_to = range.end;
        let delta: i128 = time_to as i128 - time_from as i128;
        let span: i128 = if delta != 0 { delta } else { 1 };
        TimeScale { time_from, time_to, step, span, labeller }
    }

    fn tick(&self, value: i64) -> (tick: Tick)
        ensures
            tick_fits(self.start() as int, self.end() as int, self.labeller(), value, tick),
    {
        let location = self.normalise(value);
        let label = match &self.labeller {
            Some(labeller) => Some(labeller.label(value)),
            None => None,
        };
        Tick { location, label }
    }
}

/// The pattern of the default labels: day of the month and abbreviated month,
/// as in `26-Feb`.
pub const DAY_AND_MONTH: &'static str = "%d-%b";

/// The earliest instant that has a date: the first millisecond of the year
/// 262144 BCE, which is the first year of chrono's calendar.
pub const EARLIEST_INSTANT: i64 = -8_334_601_228_800_000;

/// The latest instant that has a date: the last millisecond of the year
/// 262142 CE, which is the last year of chrono's calendar.
pub const LATEST_INSTANT: i64 = 8_210_266_876_799_999;

/// Whether the instant `millis` has a date, and so can be named by one.
pub open spec fn has_date(millis: i64) -> bool {
    EARLIEST_INSTANT <= millis <= LATEST_INSTANT
}

/// What chrono writes for the instant `millis`, taken at `offset` seconds east
/// of UTC, by the strftime pattern `format`; `None` where it writes nothing.
pub uninterp spec fn rendered(millis: i64, offset: i32, format: Seq<char>) -> Option<Seq<char>>;

/// The text that a rendering comes to: the text itself, or the blank text
/// where nothing was rendered.
pub open spec fn shown(rendering: Option<Seq<char>>) -> Seq<char> {
    match rendering {
        Some(text) => text,
        None => Seq::empty(),
    }
}

/// The offset of local time from UTC at the instant `millis`, in seconds east,
/// as the time zone of the machine has it.
///
/// Calls chrono: `TimeZone::timestamp_millis_opt` on `Utc`,
/// `DateTime::with_timezone` to `Local`, `DateTime::offset` and
/// `FixedOffset::local_minus_utc`. The contract claims that there is an offset
/// exactly for the instants that have a date (`timestamp_millis_opt` has no
/// result for an instant whose date would fall before `MIN_YEAR` or after
/// `MAX_YEAR`), and that an offset is less than a day either way, which is
/// what a `FixedOffset` can hold. Which offset it is depends on the machine
/// and is not claimed. Where the zone data of the machine gives no usable
/// offset, chrono panics.
#[verifier::external_body]
fn local_offset(millis: i64) -> (offset: Option<i32>)
    ensures
        !has_date(millis) ==> offset is None,
        has_date(millis) ==> offset is Some,
        offset matches Some(seconds) ==> -86_400 < seconds < 86_400,
{
    let local = Utc.timestamp_millis_opt(millis).single()?.with_timezone(&Local);
    Some(local.offset().local_minus_utc())
}

/// Renders the instant `millis`, taken at `offset` seconds east of UTC, by the
/// strftime pattern `format`.
///
/// Calls chrono: `FixedOffset::east_opt`, `TimeZone::timestamp_millis_opt` on
/// that offset, `DateTime::format` and `DelayedFormat::write_to`. The answer
/// is `None` where chrono cannot hold the offset, cannot represent the
/// instant or cannot render the pattern. The contract claims only that the
/// answer is settled by the three arguments, and gives it a name.
#[verifier::external_body]
fn render_at(millis: i64, offset: i32, format: &str) -> (text: Option<String>)
    ensures
        (match text {
            Some(t) => Some(t@),
            None => None,
        }) == rendered(millis, offset, format@),
{
    let instant = FixedOffset::east_opt(offset)?.timestamp_millis_opt(millis).single()?;
    let mut text = String::new();
    match instant.format(format).write_to(&mut text) {
        Ok(()) => Some(text),
        Err(_) => None,
    }
}

/// The text a local-time label shows, given what rendering the instant came
/// to: the rendered text, or nothing where the instant could not be rendered.
pub fn text_or_blank(rendering: Option<String>) -> (text: String)
    ensures
        text@ == shown(
            match rendering {
                Some(t) => Some(t@),
                None => None,
            },
        ),
{
    match rendering {
        Some(t) => t,
        None => String::new(),
    }
}

/// Names an instant by its date and time in the time zone of the machine.
///
/// The label of an instant is its rendering by the labeller's pattern at some
/// offset from UTC of less than a day. Which offset is for the time zone of
/// the machine to say, so an instant may have more than one label; with the
/// offset given it has just one. An instant without a date has the blank
/// label.
#[derive(Clone, Copy, Debug)]
pub struct LocalTimeLabeller {
    /// The strftime pattern by which instants are rendered.
    pub format: &'static str,
}

impl LocalTimeLabeller {
    /// The label of `value` where local time is `offset` seconds east of UTC.
    pub open spec fn label_at(&self, value: i64, offset: i32) -> Seq<char> {
        shown(rendered(value, offset, self.format@))
    }
}

impl Labeller for LocalTimeLabeller {
    /// An instant without a date is labelled by the blank text and by no
    /// other; an instant with a date by its label at some offset of less than
    /// a day.
    open spec fn labels(&self, value: i64, text: Seq<char>) -> bool {
        if has_date(value) {
            exists|offset: i32|
                -86_400 < offset < 86_400 && text == #[trigger] self.label_at(value, offset)
        } else {
            text == Seq::<char>::empty()
        }
    }

    /// The local date and time of `value` by the labeller's pattern; blank
    /// where the instant or the pattern cannot be rendered.
    fn label(&self, value: i64) -> (text: String)
        ensures
            !has_date(value) ==> text@ == Seq::<char>::empty(),
            has_date(value) ==> exists|offset: i32|
                -86_400 < offset < 86_400 && text@ == #[trigger] self.label_at(value, offset),
    {
        match local_offset(value) {
            Some(offset) => {
                let text = text_or_blank(render_at(value, offset, self.format));
                assert(text@ == self.label_at(value, offset));
                text
            },
            None => String::new(),
        }
    }
}

/// Whether every tick at an instant that has a date carries the label that
/// `labeller` gives there at the offset that `zone` has for that instant.
pub open spec fn labelled_in_zone(
    labeller: LocalTimeLabeller,
    zone: spec_fn(i64) -> i32,
    values: Seq<int>,
    ticks: Seq<Tick>,
) -> bool {
    forall|k: int|
        #![trigger ticks[k]]
        0 <= k < ticks.len() && has_date(values[k] as i64) ==> ticks[k].label_text() == Some(
            labeller.label_at(values[k] as i64, zone(values[k] as i64)),
        )
}

/// Asking a scale with local-time labels for its ticks twice gives the same
/// ticks twice, labels included, as long as the time zone has not changed in
/// between: any two lists that mark the same instants and were labelled at
/// the same offsets are equal tick by tick.
pub proof fn lemma_local_time_ticks_determined(
    start: int,
    end: int,
    labeller: LocalTimeLabeller,
    zone: spec_fn(i64) -> i32,
    values: Seq<int>,
    first: Seq<Tick>,
    second: Seq<Tick>,
)
    requires
        ticks_fit(start, end, Some(labeller), values, first),
        ticks_fit(start, end, Some(labeller), values, second),
        labelled_in_zone(labeller, zone, values, first),
        labelled_in_zone(labeller, zone, values, second),
    ensures
        first.len() == second.len(),
        forall|k: int|
            0 <= k < first.len() ==> first[k].location == second[k].location && first[k].label_text()
                == second[k].label_text(),
{
    assert forall|k: int| 0 <= k < first.len() implies first[k].location == second[k].location
        && first[k].label_text() == second[k].label_text() by {
        assert(tick_fits(start, end, Some(labeller), values[k] as i64, first[k]));
        assert(tick_fits(start, end, Some(labeller), values[k] as i64, second[k]));
    }
}

impl TimeScale<LocalTimeLabeller> {
    /// Creates a scale over `range` with ticks every `step` milliseconds, each
    /// named by its day and month in local time.
    pub fn new(range: Range<i64>, step: i64) -> (scale: Self)
        ensures
            scale.start() == range.start,
            scale.end() == range.end,
            scale.step() == step,
            scale.labeller() == Some(LocalTimeLabeller { format: DAY_AND_MONTH }),
    {
        Self::with_local_time_labeller(range, step, DAY_AND_MONTH)
    }

    /// Creates a scale over `range` with ticks every `step` milliseconds, each
    /// named by its local date and time in the pattern `format`.
    pub fn with_local_time_labeller(range: Range<i64>, step: i64, format: &'static str) -> (scale:
        Self)
        ensures
            scale.start() == range.start,
            scale.end() == range.end,
            scale.step() == step,
            scale.labeller() == Some(LocalTimeLabeller { format }),
    {
        Self::with_labeller(range, step, Some(LocalTimeLabeller { format }))
    }
}

impl<L: Labeller + Clone> Clone for TimeScale<L> {
    /// A second handle on the same scale: same range, same step, and a clone
    /// of its labeller.
    fn clone(&self) -> (copy: Self)
        ensures
            copy.start() == self.start(),
            copy.end() == self.end(),
            copy.step() == self.step(),
            self.labeller() is None ==> copy.labeller() is None,
            self.labeller() matches Some(labeller) ==> copy.labeller() matches Some(copied)
                && cloned(labeller, copied),
    {
        proof {
            use_type_invariant(self);
        }
        let labeller = self.labeller.clone();
        TimeScale {
            time_from: self.time_from,
            time_to: self.time_to,
            step: self.step,
            span: self.span,
            labeller,
        }
    }
}

impl<L: Labeller> Scale for TimeScale<L> {
    type Scalar = i64;

    open spec fn tick_values(&self) -> Seq<i64> {
        self.tick_instants().map_values(|instant: int| instant as i64)
    }

    open spec fn position_of(&self, value: i64) -> real {
        position(self.start() as int, self.end() as int, value as int)
    }

    open spec fn labelled(&self, value: i64, label: Option<Seq<char>>) -> bool {
        label_fits(self.labeller(), value, label)
    }

    fn ticks(&self) -> (ticks: Vec<Tick>)
        ensures
            ticks_fit(
                self.start() as int,
                self.end() as int,
                self.labeller(),
                self.tick_instants(),
                ticks@,
            ),
            self.step() == 0 ==> ticks@.len() == 0,
    {
        let mut iter = TimeScaleInclusiveIter {
            time_from: self.time_from,
            time_to: self.time_to,
            step: self.step,
            first_time: true,
        };
        let mut ticks: Vec<Tick> = Vec::new();
        let ghost instants = self.tick_instants();
        loop
            invariant
                instants == self.tick_instants(),
                ticks@.len() <= instants.len(),
                iter.remaining() == instants.skip(ticks@.len() as int),
                forall|k: int|
                    #![trigger ticks@[k]]
                    0 <= k < ticks@.len() ==> tick_fits(
                        self.start() as int,
                        self.end() as int,
                        self.labeller(),
                        instants[k] as i64,
                        ticks@[k],
                    ),
            ensures
                ticks@.len() == instants.len(),
            decreases iter.remaining().len(),
        {
            match iter.next() {
                Some(value) => {
                    let tick = self.tick(value);
                    ticks.push(tick);
                },
                None => {
                    break ;
                },
            }
        }
        ticks
    }

    fn normalise(&self, value: i64) -> (location: NormalisedValue)
        ensures
            location.offset == value - self.start(),
            location.span == span_of(self.start() as int, self.end() as int),
            value == self.start() ==> location@ == 0 as real,
            value == self.end() && self.start() != self.end() ==> location@ == 1 as real,
    {
        proof {
            use_type_invariant(self);
            if self.start() != self.end() {
                lemma_position_of_ends(self.start() as int, self.end() as int);
            } else {
                lemma_position_in_empty_range(self.start() as int);
            }
        }
        NormalisedValue { offset: value as i128 - self.time_from as i128, span: self.span }
    }
}

} // verus!

//! Daily schedule: a list of time points, each with an intensity and a
//! temperature, and linear interpolation between the points around the
//! current time. The day is circular: the segment from the last point to
//! the first one crosses midnight.

use vstd::prelude::*;

verus! {

broadcast use vstd::seq_lib::group_seq_properties;

/// Minutes in a day.
pub const MINUTES_PER_DAY: u32 = 1440;

/// One point of the schedule.
///
/// `hour` in [0, 23], `minute` in [0, 59].
/// `intensity` and `temperature` in [0, 100].
#[derive(Debug, Clone, Copy, PartialEq, Eq, Structural)]
pub struct SchedulePoint {
    pub hour: u8,
    pub minute: u8,
    pub intensity: u8,
    pub temperature: u8,
}

impl SchedulePoint {
    /// Minutes since midnight of this point.
    pub open spec fn time(self) -> int {
        self.hour * 60 + self.minute
    }

    /// The point's clock reading is a real time of day.
    pub open spec fn is_valid_time(self) -> bool {
        self.hour < 24 && self.minute < 60
    }

    /// Minutes since midnight (0..1440 for a valid time of day).
    pub fn minutes_of_day(&self) -> (m: u16)
        ensures
            m == self.time(),
    {
        (self.hour as u16) * 60 + (self.minute as u16)
    }
}

/// Points appear in order of their time of day.
pub open spec fn sorted_by_time(s: Seq<SchedulePoint>) -> bool {
    forall|i: int, j: int| 0 <= i <= j < s.len() ==> s[i].time() <= s[j].time()
}

/// Points that share a time of day are identical.
pub open spec fn times_identify_points(s: Seq<SchedulePoint>) -> bool {
    forall|i: int, j: int|
        0 <= i < s.len() && 0 <= j < s.len() && s[i].time() == s[j].time() ==> s[i] == s[j]
}

/// `s` with `p` placed after every point whose time is not later than `p`'s.
pub open spec fn insert_by_time(s: Seq<SchedulePoint>, p: SchedulePoint) -> Seq<SchedulePoint>
    decreases s.len(),
{
    if s.len() == 0 {
        seq![p]
    } else if s.last().time() <= p.time() {
        s.push(p)
    } else {
        insert_by_time(s.drop_last(), p).push(s.last())
    }
}

/// Stable sort of `s` by time of day: points with equal times keep the
/// order they had in `s`.
pub open spec fn sort_by_time(s: Seq<SchedulePoint>) -> Seq<SchedulePoint>
    decreases s.len(),
{
    if s.len() == 0 {
        s
    } else {
        insert_by_time(sort_by_time(s.drop_last()), s.last())
    }
}

/// Inserting at the first index after which every point is later than `p`
/// is `insert_by_time`.
proof fn lemma_insert_at_index(s: Seq<SchedulePoint>, p: SchedulePoint, k: int)
    requires
        0 <= k <= s.len(),
        k > 0 ==> s[k - 1].time() <= p.time(),
        forall|j: int| k <= j < s.len() ==> s[j].time() > p.time(),
    ensures
        insert_by_time(s, p) == s.insert(k, p),
    decreases s.len(),
{
    if s.len() == 0 {
        assert(s.insert(k, p) =~= seq![p]);
    } else if s.last().time() <= p.time() {
        assert(k == s.len());
        assert(s.insert(k, p) =~= s.push(p));
    } else {
        lemma_insert_at_index(s.drop_last(), p, k);
        assert(s.drop_last().insert(k, p).push(s.last()) =~= s.insert(k, p));
    }
}

/// The points kept by a stable sort of a sequence are those of the sequence.
proof fn lemma_insert_multiset(s: Seq<SchedulePoint>, p: SchedulePoint)
    ensures
        insert_by_time(s, p).to_multiset() =~= s.to_multiset().insert(p),
    decreases s.len(),
{
    broadcast use vstd::seq_lib::group_to_multiset_ensures;

    if s.len() == 0 {
        assert(seq![p] =~= s.push(p));
    } else if s.last().time() <= p.time() {
    } else {
        lemma_insert_multiset(s.drop_last(), p);
        assert(s.drop_last().push(s.last()) =~= s);
    }
}

proof fn lemma_insert_sorted(s: Seq<SchedulePoint>, p: SchedulePoint)
    requires
        sorted_by_time(s),
    ensures
        sorted_by_time(insert_by_time(s, p)),
        insert_by_time(s, p).len() == s.len() + 1,
        forall|i: int|
            0 <= i < insert_by_time(s, p).len() ==> (#[trigger] insert_by_time(s, p)[i] == p
                || exists|j: int| 0 <= j < s.len() && insert_by_time(s, p)[i] == s[j]),
    decreases s.len(),
{
    if s.len() == 0 {
    } else if s.last().time() <= p.time() {
        let r = s.push(p);
        assert forall|i: int| 0 <= i < r.len() implies (#[trigger] r[i] == p || exists|j: int|
            0 <= j < s.len() && r[i] == s[j]) by {
            if i < s.len() {
                assert(r[i] == s[i]);
            }
        }
    } else {
        let d = s.drop_last();
        lemma_insert_sorted(d, p);
        let q = insert_by_time(d, p);
        let r = q.push(s.last());
        assert forall|i: int, j: int| 0 <= i <= j < r.len() implies r[i].time() <= r[j].time() by {
            if j == r.len() - 1 && i < j {
                if q[i] != p {
                    let k = choose|k: int| 0 <= k < d.len() && q[i] == d[k];
                    assert(d[k] == s[k]);
                }
            }
        }
        assert forall|i: int| 0 <= i < r.len() implies (#[trigger] r[i] == p || exists|j: int|
            0 <= j < s.len() && r[i] == s[j]) by {
            if i < q.len() {
                assert(r[i] == q[i]);
                if q[i] != p {
                    let k = choose|k: int| 0 <= k < d.len() && q[i] == d[k];
                    assert(d[k] == s[k]);
                }
            } else {
                assert(r[i] == s[s.len() - 1]);
            }
        }
    }
}

/// A stably sorted schedule is in time order.
pub proof fn lemma_sort_by_time_sorted(s: Seq<SchedulePoint>)
    ensures
        sorted_by_time(sort_by_time(s)),
        sort_by_time(s).len() == s.len(),
    decreases s.len(),
{
    if s.len() > 0 {
        lemma_sort_by_time_sorted(s.drop_last());
        lemma_insert_sorted(sort_by_time(s.drop_last()), s.last());
    }
}

/// Sorting keeps exactly the points it was given, each as often as it was given.
pub proof fn lemma_sort_by_time_permutes(s: Seq<SchedulePoint>)
    ensures
        sort_by_time(s).to_multiset() =~= s.to_multiset(),
    decreases s.len(),
{
    broadcast use vstd::seq_lib::group_to_multiset_ensures;

    if s.len() > 0 {
        lemma_sort_by_time_permutes(s.drop_last());
        lemma_insert_multiset(sort_by_time(s.drop_last()), s.last());
        assert(s.drop_last().push(s.last()) =~= s);
    }
}

/// The points of `s` whose time of day is `t`, in their order in `s`.
pub open spec fn points_at(s: Seq<SchedulePoint>, t: int) -> Seq<SchedulePoint> {
    s.filter(|q: SchedulePoint| q.time() == t)
}

proof fn lemma_insert_points_at(s: Seq<SchedulePoint>, p: SchedulePoint, t: int)
    ensures
        points_at(insert_by_time(s, p), t) == if p.time() == t {
            points_at(s, t).push(p)
        } else {
            points_at(s, t)
        },
    decreases s.len(),
{
    let f = |q: SchedulePoint| q.time() == t;
    if s.len() == 0 {
        assert(seq![p] =~= Seq::<SchedulePoint>::empty().push(p));
        Seq::<SchedulePoint>::empty().lemma_filter_push(p, f);
        assert(s =~= Seq::<SchedulePoint>::empty());
    } else if s.last().time() <= p.time() {
        s.lemma_filter_push(p, f);
    } else {
        let d = s.drop_last();
        lemma_insert_points_at(d, p, t);
        insert_by_time(d, p).lemma_filter_push(s.last(), f);
        d.lemma_filter_push(s.last(), f);
        assert(d.push(s.last()) =~= s);
    }
}

/// Sorting is stable: the points that share a time of day come out in the
/// order they went in.
pub proof fn lemma_sort_by_time_stable(s: Seq<SchedulePoint>, t: int)
    ensures
        points_at(sort_by_time(s), t) == points_at(s, t),
    decreases s.len(),
{
    if s.len() > 0 {
        let d = s.drop_last();
        lemma_sort_by_time_stable(d, t);
        lemma_insert_points_at(sort_by_time(d), s.last(), t);
        d.lemma_filter_push(s.last(), |q: SchedulePoint| q.time() == t);
        assert(d.push(s.last()) =~= s);
    }
}

proof fn lemma_same_points_identify_times(a: Seq<SchedulePoint>, b: Seq<SchedulePoint>)
    requires
        a.to_multiset() =~= b.to_multiset(),
        times_identify_points(a),
    ensures
        times_identify_points(b),
{
    broadcast use vstd::seq_lib::group_to_multiset_ensures;

    assert forall|i: int, j: int|
        0 <= i < b.len() && 0 <= j < b.len() && b[i].time() == b[j].time() implies b[i]
        == b[j] by {
        assert(b.contains(b[i]));
        assert(b.contains(b[j]));
        assert(b.to_multiset().count(b[i]) > 0);
        assert(b.to_multiset().count(b[j]) > 0);
        assert(a.to_multiset().count(b[i]) > 0);
        assert(a.to_multiset().count(b[j]) > 0);
        assert(a.contains(b[i]));
        assert(a.contains(b[j]));
        let x = choose|x: int| 0 <= x < a.len() && a[x] == b[i];
        let y = choose|y: int| 0 <= y < a.len() && a[y] == b[j];
    }
}

proof fn lemma_sorted_same_points_equal(x: Seq<SchedulePoint>, y: Seq<SchedulePoint>)
    requires
        sorted_by_time(x),
        sorted_by_time(y),
        times_identify_points(x),
        times_identify_points(y),
        x.to_multiset() =~= y.to_multiset(),
    ensures
        x == y,
    decreases x.len(),
{
    broadcast use vstd::seq_lib::group_to_multiset_ensures;

    assert(x.len() == x.to_multiset().len());
    assert(y.len() == y.to_multiset().len());
    if x.len() == 0 {
        assert(x =~= y);
    } else {
        assert(x.contains(x[0]));
        assert(x.to_multiset().count(x[0]) > 0);
        assert(y.to_multiset().count(x[0]) > 0);
        assert(y.contains(x[0]));
        assert(y.contains(y[0]));
        assert(y.to_multiset().count(y[0]) > 0);
        assert(x.to_multiset().count(y[0]) > 0);
        assert(x.contains(y[0]));
        let j = choose|j: int| 0 <= j < y.len() && y[j] == x[0];
        let i = choose|i: int| 0 <= i < x.len() && x[i] == y[0];
        assert(y[0] == y[j]);
        assert(x.remove(0) =~= x.drop_first());
        assert(y.remove(0) =~= y.drop_first());
        lemma_sorted_same_points_equal(x.drop_first(), y.drop_first());
        assert(x =~= y) by {
            assert forall|k: int| 0 <= k < x.len() implies x[k] == y[k] by {
                if k > 0 {
                    assert(x[k] == x.drop_first()[k - 1]);
                    assert(y[k] == y.drop_first()[k - 1]);
                }
            }
        }
    }
}

/// The order in which points are given does not matter as long as points
/// that share a time of day are identical: two inputs holding the same
/// points sort to the same schedule.
pub proof fn lemma_sort_by_time_order_independent(a: Seq<SchedulePoint>, b: Seq<SchedulePoint>)
    requires
        a.to_multiset() =~= b.to_multiset(),
        times_identify_points(a),
    ensures
        sort_by_time(a) == sort_by_time(b),
{
    lemma_sort_by_time_sorted(a);
    lemma_sort_by_time_sorted(b);
    lemma_sort_by_time_permutes(a);
    lemma_sort_by_time_permutes(b);
    lemma_same_points_identify_times(a, b);
    lemma_same_points_identify_times(a, sort_by_time(a));
    lemma_same_points_identify_times(b, sort_by_time(b));
    lemma_sorted_same_points_equal(sort_by_time(a), sort_by_time(b));
}

/// Index of the first point whose time is not earlier than `now`, searching
/// from index `i`; `s.len()` when there is none.
pub open spec fn first_at_or_after_from(s: Seq<SchedulePoint>, now: int, i: int) -> int
    decreases s.len() - i,
{
    if i < 0 || i >= s.len() {
        s.len() as int
    } else if s[i].time() >= now {
        i
    } else {
        first_at_or_after_from(s, now, i + 1)
    }
}

/// Index of the first point whose time is not earlier than `now`;
/// `s.len()` when every point is earlier.
pub open spec fn first_at_or_after(s: Seq<SchedulePoint>, now: int) -> int {
    first_at_or_after_from(s, now, 0)
}

/// The segment of the circular day that holds `now`: the point before, the
/// point after, and the time of the point after, counted past midnight
/// (+1440) when the segment wraps around from the last point to the first.
pub open spec fn bracket(s: Seq<SchedulePoint>, now: int) -> (SchedulePoint, SchedulePoint, int)
    recommends
        s.len() > 0,
{
    let idx = first_at_or_after(s, now);
    if 0 < idx < s.len() {
        (s[idx - 1], s[idx], s[idx].time())
    } else {
        (s.last(), s[0], s[0].time() + MINUTES_PER_DAY)
    }
}

/// Minutes from the earlier point of the segment to `now`, and the length of
/// the segment in minutes (`now` moved past midnight when it lies before
/// the earlier point).
pub open spec fn segment_progress(s: Seq<SchedulePoint>, now: int) -> (int, int) {
    let (prev, next, next_time) = bracket(s, now);
    let now_adjusted = if now >= prev.time() { now } else { now + MINUTES_PER_DAY };
    (now_adjusted - prev.time(), next_time - prev.time())
}

/// `a + (b - a) * num / den`, the integer part taken toward `a`.
pub open spec fn lerp(a: u8, b: u8, num: int, den: int) -> int {
    if a <= b {
        a + (b - a) * num / den
    } else {
        a - (a - b) * num / den
    }
}

/// The subtraction in `lerp` stays non-negative.
pub open spec fn lerp_defined(a: u8, b: u8, num: int, den: int) -> bool {
    a <= b || (a - b) * num / den <= a
}

/// Time of day in minutes for a clock reading.
pub open spec fn clock_minutes(hour: u8, minute: u8) -> int {
    hour * 60 + minute
}

/// The interpolation at `hour:minute` stays within its unsigned arithmetic:
/// the segment and the progress along it are non-negative, and neither
/// level falls below zero.
pub open spec fn evaluation_defined(s: Seq<SchedulePoint>, hour: u8, minute: u8) -> bool {
    s.len() == 0 || {
        let now = clock_minutes(hour, minute);
        let (prev, next, _next_time) = bracket(s, now);
        let (elapsed, total) = segment_progress(s, now);
        &&& total >= 0
        &&& elapsed >= 0
        &&& total == 0 || (lerp_defined(prev.intensity, next.intensity, elapsed, total)
            && lerp_defined(prev.temperature, next.temperature, elapsed, total))
    }
}

/// The `(intensity, temperature)` the schedule `s` gives at `hour:minute`:
/// linear interpolation between the two points around that time on the
/// circular day; the later point's levels when both points share a time;
/// `None` for an empty schedule.
pub open spec fn scheduled_levels(s: Seq<SchedulePoint>, hour: u8, minute: u8) -> Option<(u8, u8)> {
    if s.len() == 0 {
        None
    } else {
        let now = clock_minutes(hour, minute);
        let (prev, next, _next_time) = bracket(s, now);
        let (elapsed, total) = segment_progress(s, now);
        if total == 0 {
            Some((next.intensity, next.temperature))
        } else {
            Some(
                (
                    lerp(prev.intensity, next.intensity, elapsed, total) as u8,
                    lerp(prev.temperature, next.temperature, elapsed, total) as u8,
                ),
            )
        }
    }
}

/// Schedule holding its points in order of time of day.
pub struct LightScheduler {
    points: Vec<SchedulePoint>,
}

impl View for LightScheduler {
    type V = Seq<SchedulePoint>;

    closed spec fn view(&self) -> Seq<SchedulePoint> {
        self.points@
    }
}

impl Default for LightScheduler {
    /// An empty schedule.
    fn default() -> (s: Self)
        ensures
            s@ == Seq::<SchedulePoint>::empty(),
    {
        LightScheduler { points: Vec::new() }
    }
}

/// Distance between two levels.
pub open spec fn level_gap(a: u8, b: u8) -> int {
    if a <= b {
        b - a
    } else {
        a - b
    }
}

/// The unsigned arithmetic of `lerp_u8` stays within `u32`: the product of
/// the gap and the progress, and the sum when the level rises.
pub open spec fn lerp_fits_u32(a: u8, b: u8, num: int, den: int) -> bool {
    &&& level_gap(a, b) * num <= u32::MAX
    &&& a <= b ==> a + level_gap(a, b) * num / den <= u32::MAX
}

proof fn lemma_gap_product_small(a: u8, b: u8, num: int, den: int)
    requires
        0 <= num <= 20000,
        den > 0,
    ensures
        lerp_fits_u32(a, b, num, den),
{
    let g = level_gap(a, b);
    assert(g * num <= 255 * 20000) by (nonlinear_arith)
        requires
            0 <= g <= 255,
            0 <= num <= 20000,
    ;
    assert(g * num / den <= g * num) by (nonlinear_arith)
        requires
            0 <= g * num,
            den > 0,
    ;
}

/// Linear interpolation on levels with integer arithmetic, without leaving
/// `u8` when `b < a`.
fn lerp_u8(a: u8, b: u8, num: u32, den: u32) -> (r: u8)
    requires
        den > 0,
        lerp_fits_u32(a, b, num as int, den as int),
        lerp_defined(a, b, num as int, den as int),
    ensures
        r == lerp(a, b, num as int, den as int) as u8,
{
    if a <= b {
        let delta = (b - a) as u32;
        (#[verifier::truncate] ((a as u32 + delta * num / den) as u8))
    } else {
        let delta = (a - b) as u32;
        (a as u32 - delta * num / den) as u8
    }
}

impl LightScheduler {
    /// The stored points are in order of time of day.
    #[verifier::type_invariant]
    spec fn points_in_time_order(self) -> bool {
        sorted_by_time(self.points@)
    }

    /// Replaces the whole schedule. The points are stably sorted by time of
    /// day before they are stored, so the caller need not mind their order.
    pub fn set_schedule(&mut self, points: Vec<SchedulePoint>)
        ensures
            final(self)@ == sort_by_time(points@),
            sorted_by_time(final(self)@),
    {
        let mut out: Vec<SchedulePoint> = Vec::new();
        let n = points.len();
        for i in 0..n
            invariant
                n == points.len(),
                out@ == sort_by_time(points@.take(i as int)),
                sorted_by_time(out@),
        {
            let p = points[i];
            let key = p.minutes_of_day();
            let mut k = out.len();
            while k > 0 && out[k - 1].minutes_of_day() > key
                invariant
                    k <= out.len(),
                    key == p.time(),
                    forall|j: int| k <= j < out.len() ==> out@[j].time() > p.time(),
                decreases k,
            {
                k = k - 1;
            }
            proof {
                lemma_insert_at_index(out@, p, k as int);
                lemma_insert_sorted(out@, p);
                assert(points@.take(i + 1).drop_last() =~= points@.take(i as int));
            }
            out.insert(k, p);
        }
        proof {
            assert(points@.take(n as int) =~= points@);
        }
        self.points = out;
    }

    /// A schedule is loaded.
    pub fn has_schedule(&self) -> (b: bool)
        ensures
            b == (self@.len() > 0),
            sorted_by_time(self@),
    {
        proof {
            use_type_invariant(self);
        }
        !self.points.is_empty()
    }

    /// Index of the first point not earlier than `now`.
    fn first_at_or_after(&self, now: u16) -> (idx: usize)
        ensures
            idx == first_at_or_after(self@, now as int),
    {
        let n = self.points.len();
        let mut idx: usize = 0;
        while idx < n && self.points[idx].minutes_of_day() < now
            invariant
                n == self@.len(),
                idx <= n,
                first_at_or_after_from(self@, now as int, idx as int) == first_at_or_after(
                    self@,
                    now as int,
                ),
            decreases n - idx,
        {
            idx = idx + 1;
        }
        idx
    }

    /// The segment around `hour:minute` and the progress along it.
    fn segment_at(&self, hour: u8, minute: u8) -> (r: (SchedulePoint, SchedulePoint, i32, i32))
        requires
            self@.len() > 0,
        ensures
            r.0 == bracket(self@, clock_minutes(hour, minute)).0,
            r.1 == bracket(self@, clock_minutes(hour, minute)).1,
            r.2 == segment_progress(self@, clock_minutes(hour, minute)).0,
            r.3 == segment_progress(self@, clock_minutes(hour, minute)).1,
    {
        let n = self.points.len();
        let now: u16 = (hour as u16) * 60 + (minute as u16);
        let idx = self.first_at_or_after(now);
        let (prev, next, next_time): (SchedulePoint, SchedulePoint, i32) = if 0 < idx && idx < n {
            (self.points[idx - 1], self.points[idx], self.points[idx].minutes_of_day() as i32)
        } else {
            (self.points[n - 1], self.points[0], self.points[0].minutes_of_day() as i32 + 1440)
        };
        let prev_time = prev.minutes_of_day() as i32;
        let now_adjusted: i32 = if now as i32 >= prev_time {
            now as i32
        } else {
            now as i32 + 1440
        };
        (prev, next, now_adjusted - prev_time, next_time - prev_time)
    }

    /// The schedule can be evaluated at `hour:minute` (see `evaluation_defined`).
    pub fn can_evaluate(&self, hour: u8, minute: u8) -> (b: bool)
        ensures
            b == evaluation_defined(self@, hour, minute),
            sorted_by_time(self@),
    {
        proof {
            use_type_invariant(self);
        }
        if self.points.is_empty() {
            return true;
        }
        let (prev, next, elapsed, total) = self.segment_at(hour, minute);
        if total < 0 || elapsed < 0 {
            return false;
        }
        if total == 0 {
            return true;
        }
        proof {
            lemma_gap_product_small(prev.intensity, next.intensity, elapsed as int, total as int);
            lemma_gap_product_small(prev.temperature, next.temperature, elapsed as int, total as int);
        }
        lerp_fits(prev.intensity, next.intensity, elapsed as u32, total as u32) && lerp_fits(
            prev.temperature,
            next.temperature,
            elapsed as u32,
            total as u32,
        )
    }

    /// Evaluates the schedule at `hour:minute`: `Some((intensity, temperature))`
    /// when at least one point is loaded, interpolated between the points
    /// around that time (across midnight when the time lies after the last
    /// point or before the first).
    pub fn evaluate(&self, hour: u8, minute: u8) -> (r: Option<(u8, u8)>)
        requires
            evaluation_defined(self@, hour, minute),
        ensures
            r == scheduled_levels(self@, hour, minute),
            r is Some <==> self@.len() > 0,
            sorted_by_time(self@),
    {
        proof {
            use_type_invariant(self);
        }
        if self.points.is_empty() {
            return None;
        }
        let (prev, next, elapsed, total) = self.segment_at(hour, minute);
        let total = total as u32;
        let elapsed = elapsed as u32;
        if total == 0 {
            return Some((next.intensity, next.temperature));
        }
        proof {
            lemma_gap_product_small(prev.intensity, next.intensity, elapsed as int, total as int);
            lemma_gap_product_small(prev.temperature, next.temperature, elapsed as int, total as int);
        }
        let intensity = lerp_u8(prev.intensity, next.intensity, elapsed, total);
        let temperature = lerp_u8(prev.temperature, next.temperature, elapsed, total);
        Some((intensity, temperature))
    }
}

/// `lerp_defined` computed.
fn lerp_fits(a: u8, b: u8, num: u32, den: u32) -> (r: bool)
    requires
        den > 0,
        level_gap(a, b) * num <= u32::MAX,
    ensures
        r == lerp_defined(a, b, num as int, den as int),
{
    if a <= b {
        true
    } else {
        let delta = (a - b) as u32;
        delta * num / den <= a as u32
    }
}

proof fn lemma_first_at_or_after_from(s: Seq<SchedulePoint>, now: int, i: int)
    requires
        0 <= i <= s.len(),
    ensures
        i <= first_at_or_after_from(s, now, i) <= s.len(),
        forall|j: int| i <= j < first_at_or_after_from(s, now, i) ==> s[j].time() < now,
        first_at_or_after_from(s, now, i) < s.len() ==> s[first_at_or_after_from(
            s,
            now,
            i,
        )].time() >= now,
    decreases s.len() - i,
{
    if i < s.len() && s[i].time() < now {
        lemma_first_at_or_after_from(s, now, i + 1);
    }
}

/// The first point not earlier than `now` follows every earlier point.
proof fn lemma_first_at_or_after(s: Seq<SchedulePoint>, now: int)
    ensures
        0 <= first_at_or_after(s, now) <= s.len(),
        forall|j: int| 0 <= j < first_at_or_after(s, now) ==> s[j].time() < now,
        first_at_or_after(s, now) < s.len() ==> s[first_at_or_after(s, now)].time() >= now,
{
    lemma_first_at_or_after_from(s, now, 0);
}

proof fn lemma_scaled_fraction(x: int, num: int, den: int)
    requires
        0 <= x,
        0 <= num <= den,
        0 < den,
    ensures
        0 <= x * num / den <= x,
        num == den ==> x * num / den == x,
        num == 0 ==> x * num / den == 0,
{
    assert(0 <= x * num) by (nonlinear_arith)
        requires
            0 <= x,
            0 <= num,
    ;
    assert(x * num <= x * den) by (nonlinear_arith)
        requires
            0 <= x,
            num <= den,
    ;
    assert(x * den / den == x) by (nonlinear_arith)
        requires
            0 < den,
    ;
    assert(x * num / den <= x * den / den) by (nonlinear_arith)
        requires
            x * num <= x * den,
            0 < den,
    ;
    assert(0 <= x * num / den) by (nonlinear_arith)
        requires
            0 <= x * num,
            0 < den,
    ;
}

/// Interpolation stays between its two ends and reaches each end.
proof fn lemma_lerp_between(a: u8, b: u8, num: int, den: int)
    requires
        0 <= num <= den,
        0 < den,
    ensures
        lerp_defined(a, b, num, den),
        a <= b ==> a <= lerp(a, b, num, den) <= b,
        b < a ==> b <= lerp(a, b, num, den) <= a,
        num == den ==> lerp(a, b, num, den) == b,
        num == 0 ==> lerp(a, b, num, den) == a,
{
    if a <= b {
        lemma_scaled_fraction(b - a, num, den);
    } else {
        lemma_scaled_fraction(a - b, num, den);
    }
}

/// All points of `s` carry real times of day.
pub open spec fn valid_times(s: Seq<SchedulePoint>) -> bool {
    forall|i: int| 0 <= i < s.len() ==> #[trigger] s[i].is_valid_time()
}

proof fn lemma_progress_within_segment(s: Seq<SchedulePoint>, hour: u8, minute: u8)
    requires
        s.len() > 0,
        sorted_by_time(s),
        valid_times(s),
        hour < 24,
        minute < 60,
    ensures
        0 <= segment_progress(s, clock_minutes(hour, minute)).0 <= segment_progress(
            s,
            clock_minutes(hour, minute),
        ).1,
        0 < segment_progress(s, clock_minutes(hour, minute)).1,
{
    let now = clock_minutes(hour, minute);
    lemma_first_at_or_after(s, now);
    let idx = first_at_or_after(s, now);
    assert(s[0].is_valid_time());
    assert(s[s.len() - 1].is_valid_time());
    if 0 < idx < s.len() {
        assert(s[idx - 1].time() < now);
    } else if idx == 0 {
        assert(s[0].time() <= s[s.len() - 1].time());
    } else {
        assert(s[s.len() - 1].time() < now);
    }
}

/// For a sorted schedule of real times of day, evaluation at any real time
/// of day is defined, and each level lies between the levels of the two
/// points around that time.
pub proof fn lemma_evaluation_between_neighbours(s: Seq<SchedulePoint>, hour: u8, minute: u8)
    requires
        s.len() > 0,
        sorted_by_time(s),
        valid_times(s),
        hour < 24,
        minute < 60,
    ensures
        evaluation_defined(s, hour, minute),
        ({
            let (prev, next, _t) = bracket(s, clock_minutes(hour, minute));
            let (i, t) = scheduled_levels(s, hour, minute).unwrap();
            &&& (prev.intensity <= i <= next.intensity || next.intensity <= i <= prev.intensity)
            &&& (prev.temperature <= t <= next.temperature || next.temperature <= t
                <= prev.temperature)
        }),
{
    let now = clock_minutes(hour, minute);
    lemma_progress_within_segment(s, hour, minute);
    let (prev, next, _t) = bracket(s, now);
    let (elapsed, total) = segment_progress(s, now);
    lemma_lerp_between(prev.intensity, next.intensity, elapsed, total);
    lemma_lerp_between(prev.temperature, next.temperature, elapsed, total);
}

/// For a sorted schedule of real times of day whose levels are all at most
/// `cap` (100 for a valid schedule), every evaluation at a real time of day
/// gives levels at most `cap`.
pub proof fn lemma_evaluation_within_cap(s: Seq<SchedulePoint>, hour: u8, minute: u8, cap: u8)
    requires
        s.len() > 0,
        sorted_by_time(s),
        valid_times(s),
        hour < 24,
        minute < 60,
        forall|i: int| 0 <= i < s.len() ==> #[trigger] s[i].intensity <= cap && s[i].temperature <= cap,
    ensures
        evaluation_defined(s, hour, minute),
        scheduled_levels(s, hour, minute).unwrap().0 <= cap,
        scheduled_levels(s, hour, minute).unwrap().1 <= cap,
{
    lemma_evaluation_between_neighbours(s, hour, minute);
    let now = clock_minutes(hour, minute);
    lemma_first_at_or_after(s, now);
    let idx = first_at_or_after(s, now);
    if 0 < idx < s.len() {
        assert(s[idx - 1].intensity <= cap);
        assert(s[idx].intensity <= cap);
    } else {
        assert(s[0].intensity <= cap);
        assert(s[s.len() - 1].intensity <= cap);
    }
}

/// At the exact time of one of its points, a sorted schedule of real times of
/// day in which points sharing a time are identical gives that point's levels.
pub proof fn lemma_evaluation_at_point(s: Seq<SchedulePoint>, k: int)
    requires
        0 <= k < s.len(),
        sorted_by_time(s),
        valid_times(s),
        times_identify_points(s),
    ensures
        evaluation_defined(s, s[k].hour, s[k].minute),
        scheduled_levels(s, s[k].hour, s[k].minute) == Some((s[k].intensity, s[k].temperature)),
{
    let hour = s[k].hour;
    let minute = s[k].minute;
    assert(s[k].is_valid_time());
    let now = clock_minutes(hour, minute);
    lemma_first_at_or_after(s, now);
    lemma_progress_within_segment(s, hour, minute);
    let idx = first_at_or_after(s, now);
    assert(idx <= k);
    assert(s[idx].time() == now);
    assert(s[idx] == s[k]);
    let (prev, next, _t) = bracket(s, now);
    let (elapsed, total) = segment_progress(s, now);
    lemma_lerp_between(prev.intensity, next.intensity, elapsed, total);
    lemma_lerp_between(prev.temperature, next.temperature, elapsed, total);
    if idx == 0 {
        assert(s[0].time() <= s[s.len() - 1].time());
        assert(s[s.len() - 1].is_valid_time());
        if s[s.len() - 1].time() == now {
            assert(s[s.len() - 1] == s[k]);
        }
    }
}

proof fn lemma_same_points_valid_times(a: Seq<SchedulePoint>, b: Seq<SchedulePoint>)
    requires
        a.to_multiset() =~= b.to_multiset(),
        valid_times(a),
    ensures
        valid_times(b),
{
    broadcast use vstd::seq_lib::group_to_multiset_ensures;

    assert forall|i: int| 0 <= i < b.len() implies #[trigger] b[i].is_valid_time() by {
        assert(b.contains(b[i]));
        assert(b.to_multiset().count(b[i]) > 0);
        assert(a.to_multiset().count(b[i]) > 0);
        assert(a.contains(b[i]));
        let x = choose|x: int| 0 <= x < a.len() && a[x] == b[i];
        assert(a[x].is_valid_time());
    }
}

/// A schedule loaded from points with real times of day, in which points
/// sharing a time are identical, gives at each point's time exactly that
/// point's levels, whatever order the points were given in.
pub proof fn lemma_loaded_point_is_reproduced(points: Seq<SchedulePoint>, k: int)
    requires
        0 <= k < points.len(),
        valid_times(points),
        times_identify_points(points),
    ensures
        evaluation_defined(sort_by_time(points), points[k].hour, points[k].minute),
        scheduled_levels(sort_by_time(points), points[k].hour, points[k].minute) == Some(
            (points[k].intensity, points[k].temperature),
        ),
{
    broadcast use vstd::seq_lib::group_to_multiset_ensures;

    let s = sort_by_time(points);
    lemma_sort_by_time_sorted(points);
    lemma_sort_by_time_permutes(points);
    lemma_same_points_valid_times(points, s);
    lemma_same_points_identify_times(points, s);
    assert(points.contains(points[k]));
    assert(points.to_multiset().count(points[k]) > 0);
    assert(s.to_multiset().count(points[k]) > 0);
    assert(s.contains(points[k]));
    let j = choose|j: int| 0 <= j < s.len() && s[j] == points[k];
    lemma_evaluation_at_point(s, j);
}

/// Between two consecutive points, the levels move linearly with the
/// minutes elapsed since the earlier point: at `now` with
/// `s[i-1].time() < now <= s[i].time()`, each level is
/// `a + (b - a) * (now - t_a) / (t_b - t_a)`, the integer part taken toward
/// the earlier point's level `a`.
pub proof fn lemma_interpolation_between_points(s: Seq<SchedulePoint>, hour: u8, minute: u8, i: int)
    requires
        sorted_by_time(s),
        0 < i < s.len(),
        s[i - 1].time() < clock_minutes(hour, minute) <= s[i].time(),
    ensures
        ({
            let a = s[i - 1];
            let b = s[i];
            let num = clock_minutes(hour, minute) - a.time();
            let den = b.time() - a.time();
            scheduled_levels(s, hour, minute) == Some(
                (
                    (if a.intensity <= b.intensity {
                        a.intensity + (b.intensity - a.intensity) * num / den
                    } else {
                        a.intensity - (a.intensity - b.intensity) * num / den
                    }) as u8,
                    (if a.temperature <= b.temperature {
                        a.temperature + (b.temperature - a.temperature) * num / den
                    } else {
                        a.temperature - (a.temperature - b.temperature) * num / den
                    }) as u8,
                ),
            )
        }),
{
    let now = clock_minutes(hour, minute);
    lemma_first_at_or_after(s, now);
    let idx = first_at_or_after(s, now);
    if idx < i {
        assert(s[idx].time() <= s[i - 1].time());
    }
    if idx > i {
        assert(s[i].time() < now);
    }
    assert(idx == i);
}

/// After the last point of a schedule of real times of day, the levels move
/// linearly toward the first point of the next day: with `t_l` the last
/// point's time and `t_f` the first's, each level is
/// `l + (f - l) * (now - t_l) / (t_f + 1440 - t_l)`, the integer part taken
/// toward the last point's level `l`.
pub proof fn lemma_interpolation_after_last(s: Seq<SchedulePoint>, hour: u8, minute: u8)
    requires
        sorted_by_time(s),
        valid_times(s),
        s.len() > 0,
        s[s.len() - 1].time() < clock_minutes(hour, minute),
    ensures
        ({
            let a = s[s.len() - 1];
            let b = s[0];
            let num = clock_minutes(hour, minute) - a.time();
            let den = b.time() + 1440 - a.time();
            scheduled_levels(s, hour, minute) == Some(
                (
                    (if a.intensity <= b.intensity {
                        a.intensity + (b.intensity - a.intensity) * num / den
                    } else {
                        a.intensity - (a.intensity - b.intensity) * num / den
                    }) as u8,
                    (if a.temperature <= b.temperature {
                        a.temperature + (b.temperature - a.temperature) * num / den
                    } else {
                        a.temperature - (a.temperature - b.temperature) * num / den
                    }) as u8,
                ),
            )
        }),
{
    let now = clock_minutes(hour, minute);
    lemma_first_at_or_after(s, now);
    let idx = first_at_or_after(s, now);
    if idx < s.len() {
        assert(s[idx].time() <= s[s.len() - 1].time());
    }
    assert(idx == s.len());
    assert(s[s.len() - 1].is_valid_time());
}

/// Before the first point of a schedule of real times of day (and before
/// its last point), the levels still follow the segment that began at the
/// last point the day before: each level is
/// `l + (f - l) * (now + 1440 - t_l) / (t_f + 1440 - t_l)`, the integer part
/// taken toward the last point's level `l`.
pub proof fn lemma_interpolation_before_first(s: Seq<SchedulePoint>, hour: u8, minute: u8)
    requires
        sorted_by_time(s),
        valid_times(s),
        s.len() > 0,
        clock_minutes(hour, minute) <= s[0].time(),
        clock_minutes(hour, minute) < s[s.len() - 1].time(),
    ensures
        ({
            let a = s[s.len() - 1];
            let b = s[0];
            let num = clock_minutes(hour, minute) + 1440 - a.time();
            let den = b.time() + 1440 - a.time();
            scheduled_levels(s, hour, minute) == Some(
                (
                    (if a.intensity <= b.intensity {
                        a.intensity + (b.intensity - a.intensity) * num / den
                    } else {
                        a.intensity - (a.intensity - b.intensity) * num / den
                    }) as u8,
                    (if a.temperature <= b.temperature {
                        a.temperature + (b.temperature - a.temperature) * num / den
                    } else {
                        a.temperature - (a.temperature - b.temperature) * num / den
                    }) as u8,
                ),
            )
        }),
{
    let now = clock_minutes(hour, minute);
    lemma_first_at_or_after(s, now);
    assert(first_at_or_after(s, now) == 0);
    assert(s[s.len() - 1].is_valid_time());
}

} // verus!

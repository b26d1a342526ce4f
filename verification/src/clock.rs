//! Moments in time, and how they are written.
use vstd::prelude::*;

verus! {

/// The first second that a moment can lie in, counted from 1970.
pub const FIRST_SECOND: i64 = -8_334_601_228_800;

/// The last second that a moment can lie in, counted from 1970.
pub const LAST_SECOND: i64 = 8_210_266_876_799;

/// Whether seconds since 1970 and nanoseconds within the second are a moment.
/// A leap second is the second half of the range of nanoseconds, at the end of a
/// minute.
pub open spec fn is_moment(seconds: int, nanos: int) -> bool {
    &&& FIRST_SECOND <= seconds <= LAST_SECOND
    &&& 0 <= nanos < 2_000_000_000
    &&& nanos >= 1_000_000_000 ==> seconds % 60 == 59
}

/// A moment in time.
#[derive(Clone, Copy, Debug)]
pub struct Moment {
    seconds: i64,
    nanos: u32,
}

/// What a [`Moment`] says.
pub struct MomentView {
    pub seconds: int,
    pub nanos: int,
}

impl MomentView {
    /// Whether this moment comes before another.
    pub open spec fn before(self, other: MomentView) -> bool {
        self.seconds < other.seconds || (self.seconds == other.seconds && self.nanos < other.nanos)
    }
}

impl Moment {
    pub closed spec fn view(&self) -> MomentView {
        MomentView { seconds: self.seconds as int, nanos: self.nanos as int }
    }

    #[verifier::type_invariant]
    spec fn valid(self) -> bool {
        is_moment(self.seconds as int, self.nanos as int)
    }

    /// The moment at so many seconds since 1970, and nanoseconds within the
    /// second.
    pub fn new(seconds: i64, nanos: u32) -> (out: Option<Moment>)
        ensures
            out is Some <==> is_moment(seconds as int, nanos as int),
            out matches Some(m) ==> m@ == (MomentView {
                seconds: seconds as int,
                nanos: nanos as int,
            }),
    {
        if seconds < FIRST_SECOND || seconds > LAST_SECOND || nanos >= 2_000_000_000 {
            return None;
        }
        // The first second starts a minute, and seconds before 1970 are negative.
        let within: i64 = (seconds - FIRST_SECOND) % 60;
        proof {
            assert(within == seconds % 60);
        }
        if nanos >= 1_000_000_000 && within != 59 {
            return None;
        }
        Some(Moment { seconds, nanos })
    }

    /// Whether this moment comes before another.
    pub fn before(&self, other: &Moment) -> (out: bool)
        ensures
            out == self@.before(other@),
    {
        self.seconds < other.seconds || (self.seconds == other.seconds && self.nanos < other.nanos)
    }

    /// The moment as RFC 3339 writes it, in UTC.
    pub fn to_rfc3339(&self) -> (out: String)
        ensures
            out@ == rfc3339(self@.seconds, self@.nanos),
    {
        proof {
            use_type_invariant(self);
        }
        write_rfc3339(self.seconds, self.nanos)
    }

    /// The moment as a date and a time of day, in UTC.
    pub fn to_table_text(&self) -> (out: String)
        ensures
            out@ == table_text(self@.seconds, self@.nanos),
    {
        proof {
            use_type_invariant(self);
        }
        write_table_text(self.seconds, self.nanos)
    }

    /// The moment at which it is called, as far as the machine knows.
    pub fn now() -> (out: Moment)
        ensures
            is_moment(out@.seconds, out@.nanos),
    {
        let (seconds, nanos): (i64, u32) = clock();
        Moment { seconds, nanos }
    }
}

/// A moment as RFC 3339 writes it (`chrono::DateTime::<Utc>::to_rfc3339`).
pub uninterp spec fn rfc3339(seconds: int, nanos: int) -> Seq<char>;

/// A moment as `%Y-%m-%d %H:%M:%S` writes it (`chrono::DateTime::<Utc>::format`).
pub uninterp spec fn table_text(seconds: int, nanos: int) -> Seq<char>;

/// `to_rfc3339` of the `chrono::DateTime<Utc>` at so many seconds and
/// nanoseconds. That there is such a `DateTime` is what `is_moment` says.
#[verifier::external_body]
fn write_rfc3339(seconds: i64, nanos: u32) -> (out: String)
    requires
        is_moment(seconds as int, nanos as int),
    ensures
        out@ == rfc3339(seconds as int, nanos as int),
{
    let moment: chrono::DateTime<chrono::Utc> = chrono::DateTime::from_timestamp(seconds, nanos).unwrap();
    moment.to_rfc3339()
}

/// `format` of the `chrono::DateTime<Utc>` at so many seconds and nanoseconds,
/// with date and time of day. That there is such a `DateTime` is what
/// `is_moment` says.
#[verifier::external_body]
fn write_table_text(seconds: i64, nanos: u32) -> (out: String)
    requires
        is_moment(seconds as int, nanos as int),
    ensures
        out@ == table_text(seconds as int, nanos as int),
{
    let moment: chrono::DateTime<chrono::Utc> = chrono::DateTime::from_timestamp(seconds, nanos).unwrap();
    moment.format("%Y-%m-%d %H:%M:%S").to_string()
}

/// `chrono::Utc::now`: the time on the machine's clock, of which nothing is
/// said but that it is a moment.
#[verifier::external_body]
fn clock() -> (out: (i64, u32))
    ensures
        is_moment(out.0 as int, out.1 as int),
{
    let moment: chrono::DateTime<chrono::Utc> = chrono::Utc::now();
    (moment.timestamp(), moment.timestamp_subsec_nanos())
}

/// Of two moments the earlier one comes before: nanoseconds decide within a
/// second, a leap second's too.
pub proof fn law_moments_follow_the_clock(a: MomentView, b: MomentView)
    requires
        0 <= a.nanos < 2_000_000_000,
        0 <= b.nanos < 2_000_000_000,
    ensures
        a.before(b) <==> a.seconds * 2_000_000_000 + a.nanos < b.seconds * 2_000_000_000 + b.nanos,
        !a.before(b) && !b.before(a) <==> a == b,
{
}

/// The moments that there are: every nanosecond of every second between the
/// first and the last, and beyond the billionth only at the end of a minute.
pub proof fn law_which_moments_there_are(seconds: int, nanos: int)
    ensures
        0 <= nanos < 1_000_000_000 ==> (is_moment(seconds, nanos) <==> -8_334_601_228_800 <= seconds
            <= 8_210_266_876_799),
        1_000_000_000 <= nanos < 2_000_000_000 ==> (is_moment(seconds, nanos) <==>
            -8_334_601_228_800 <= seconds <= 8_210_266_876_799 && (seconds + 1) % 60 == 0),
        nanos < 0 || nanos >= 2_000_000_000 ==> !is_moment(seconds, nanos),
{
}

}

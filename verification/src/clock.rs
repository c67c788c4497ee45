//! The clock module: caches the local time of day rendered as `HH:MM:SS`
//! and refreshes that cache at most once per second, however often it is
//! polled.

use vstd::prelude::*;
use vstd::string::StringExecFns;

verus! {

/// Milliseconds in one second: the clock refreshes its cached text when at
/// least this much time has passed since the last refresh.
pub const REFRESH_MS: u64 = 1000;

/// The decimal digit character for `d` (meaningful for `0 <= d <= 9`).
pub open spec fn spec_digit(d: int) -> char {
    if d == 0 {
        '0'
    } else if d == 1 {
        '1'
    } else if d == 2 {
        '2'
    } else if d == 3 {
        '3'
    } else if d == 4 {
        '4'
    } else if d == 5 {
        '5'
    } else if d == 6 {
        '6'
    } else if d == 7 {
        '7'
    } else if d == 8 {
        '8'
    } else {
        '9'
    }
}

/// Two-character, zero-padded decimal rendering of `n` (for `0 <= n < 100`).
pub open spec fn spec_two_digits(n: int) -> Seq<char> {
    seq![spec_digit(n / 10), spec_digit(n % 10)]
}

/// The time of day rendered as zero-padded, 24-hour `HH:MM:SS`.
pub open spec fn spec_hms(h: int, m: int, s: int) -> Seq<char> {
    spec_two_digits(h) + seq![':'] + spec_two_digits(m) + seq![':'] + spec_two_digits(s)
}

/// The one-character string for the decimal digit `d`.
pub fn digit_str(d: u8) -> (r: &'static str)
    requires
        d < 10,
    ensures
        r@ == seq![spec_digit(d as int)],
{
    let r: &'static str = match d {
        0 => "0",
        1 => "1",
        2 => "2",
        3 => "3",
        4 => "4",
        5 => "5",
        6 => "6",
        7 => "7",
        8 => "8",
        _ => "9",
    };
    proof {
        reveal_strlit("0");
        reveal_strlit("1");
        reveal_strlit("2");
        reveal_strlit("3");
        reveal_strlit("4");
        reveal_strlit("5");
        reveal_strlit("6");
        reveal_strlit("7");
        reveal_strlit("8");
        reveal_strlit("9");
        assert(r@ =~= seq![spec_digit(d as int)]);
    }
    r
}

/// Renders an in-range time of day as zero-padded `HH:MM:SS`.
pub fn format_hms(hour: u8, minute: u8, second: u8) -> (t: String)
    requires
        hour < 24,
        minute < 60,
        second < 60,
    ensures
        t@ == spec_hms(hour as int, minute as int, second as int),
{
    let mut t = String::new();
    t.append(digit_str(hour / 10));
    t.append(digit_str(hour % 10));
    t.append(":");
    t.append(digit_str(minute / 10));
    t.append(digit_str(minute % 10));
    t.append(":");
    t.append(digit_str(second / 10));
    t.append(digit_str(second % 10));
    proof {
        reveal_strlit(":");
        assert(t@ =~= spec_hms(hour as int, minute as int, second as int));
    }
    t
}

/// Abstract state of a [`ClockModule`]: the instant (milliseconds since the
/// epoch) of the last refresh, and the cached rendered text, absent until
/// the first refresh.
#[verifier::ext_equal]
pub ghost struct ClockView {
    pub last_refresh_ms: u64,
    pub cache: Option<Seq<char>>,
}

/// A polled time-of-day source. `last_refresh_ms` starts at the epoch (0),
/// so the very first poll reports readiness whenever the wall clock is at
/// least one second past the epoch; `cache` starts empty and is set by the
/// first render pass.
pub struct ClockModule {
    pub last_refresh_ms: u64,
    pub cache: Option<String>,
}

impl View for ClockModule {
    type V = ClockView;

    open spec fn view(&self) -> ClockView {
        ClockView {
            last_refresh_ms: self.last_refresh_ms,
            cache: if self.cache is Some {
                Some(self.cache->Some_0@)
            } else {
                None
            },
        }
    }
}

/// Validity of a clock's cached text: when present, it is the rendering
/// of some in-range time of day. Construction starts with no cache and
/// every refresh stores such a rendering, so every clock satisfies this.
pub open spec fn clock_wf(c: ClockView) -> bool {
    c.cache is Some ==> exists|h: int, mi: int, s: int|
        0 <= h < 24 && 0 <= mi < 60 && 0 <= s < 60 && c.cache->Some_0 == #[trigger] spec_hms(
            h,
            mi,
            s,
        )
}

/// A clock is ready exactly when a full refresh period has elapsed since
/// its last refresh.
pub open spec fn clock_ready_at(c: ClockView, now_ms: u64) -> bool {
    now_ms >= c.last_refresh_ms + REFRESH_MS
}

/// The clock's state after one render pass: a refresh (new instant, new
/// cached text) when it was ready, untouched otherwise.
pub open spec fn clock_after_render(
    c: ClockView,
    ready: bool,
    now_ms: u64,
    h: int,
    m: int,
    s: int,
) -> ClockView {
    if ready {
        ClockView { last_refresh_ms: now_ms, cache: Some(spec_hms(h, m, s)) }
    } else {
        c
    }
}

impl ClockModule {
    /// Reports whether the cached text is due for a refresh: true iff at
    /// least one second has elapsed since the last refresh. Going backwards
    /// in time has no answer, as with a wall clock read that precedes a
    /// stored instant.
    pub fn ready(&self, now_ms: u64) -> (r: bool)
        requires
            now_ms >= self.last_refresh_ms,
        ensures
            r == clock_ready_at(self@, now_ms),
    {
        now_ms - self.last_refresh_ms >= REFRESH_MS
    }

    /// Render-pass entry: on `ready`, first refreshes the cache to the
    /// given local time of day and records `now_ms` as the refresh
    /// instant; then appends the cached text to `out`. Before the first
    /// refresh there is nothing to show, so a non-ready render needs an
    /// already-filled cache.
    pub fn go(
        &mut self,
        ready: bool,
        now_ms: u64,
        hour: u8,
        minute: u8,
        second: u8,
        out: &mut String,
    )
        requires
            hour < 24,
            minute < 60,
            second < 60,
            !ready ==> old(self).cache is Some,
        ensures
            final(self)@ == clock_after_render(
                old(self)@,
                ready,
                now_ms,
                hour as int,
                minute as int,
                second as int,
            ),
            final(self)@.cache is Some,
            final(out)@ == old(out)@ + final(self)@.cache->Some_0,
    {
        if ready {
            self.last_refresh_ms = now_ms;
            self.cache = Some(format_hms(hour, minute, second));
        }
        let t = self.cache.as_ref().unwrap();
        out.append(t.as_str());
        proof {
            assert(self@ =~= clock_after_render(
                old(self)@,
                ready,
                now_ms,
                hour as int,
                minute as int,
                second as int,
            ));
        }
    }
}

/// Clock cadence law: after a refresh at instant `now_ms`, the clock
/// reports ready at a later instant `t` exactly when at least one full
/// second has passed, i.e. `t >= now_ms + 1000` — and not for any lesser
/// elapsed time.
pub proof fn lemma_clock_cadence(
    c: ClockView,
    now_ms: u64,
    h: int,
    m: int,
    s: int,
    t: u64,
)
    ensures
        clock_ready_at(clock_after_render(c, true, now_ms, h, m, s), t) <==> t >= now_ms
            + REFRESH_MS,
{
}

/// Clock format law: for any in-range time of day, the rendered text has
/// exactly eight characters laid out as `HH:MM:SS`: colons at positions 2
/// and 5, decimal digits everywhere else, and the three two-digit groups
/// read back as the (zero-padded) hour, minute and second.
pub proof fn lemma_hms_format(h: int, m: int, s: int)
    requires
        0 <= h < 24,
        0 <= m < 60,
        0 <= s < 60,
    ensures
        spec_hms(h, m, s).len() == 8,
        spec_hms(h, m, s)[2] == ':',
        spec_hms(h, m, s)[5] == ':',
        forall|i: int|
            0 <= i < 8 && i != 2 && i != 5 ==> '0' as int <= #[trigger] spec_hms(h, m, s)[i] as int
                <= '9' as int,
        (spec_hms(h, m, s)[0] as int - '0' as int) * 10 + (spec_hms(h, m, s)[1] as int
            - '0' as int) == h,
        (spec_hms(h, m, s)[3] as int - '0' as int) * 10 + (spec_hms(h, m, s)[4] as int
            - '0' as int) == m,
        (spec_hms(h, m, s)[6] as int - '0' as int) * 10 + (spec_hms(h, m, s)[7] as int
            - '0' as int) == s,
{
    assert forall|i: int| 0 <= i < 8 && i != 2 && i != 5 implies '0' as int <= #[trigger] spec_hms(
        h,
        m,
        s,
    )[i] as int <= '9' as int by {
        assert(spec_hms(h, m, s)[0] == spec_digit(h / 10));
        assert(spec_hms(h, m, s)[1] == spec_digit(h % 10));
        assert(spec_hms(h, m, s)[3] == spec_digit(m / 10));
        assert(spec_hms(h, m, s)[4] == spec_digit(m % 10));
        assert(spec_hms(h, m, s)[6] == spec_digit(s / 10));
        assert(spec_hms(h, m, s)[7] == spec_digit(s % 10));
    }
}

/// A rendered time of day never contains the separator's bar character:
/// it is made of decimal digits and colons only.
pub proof fn lemma_hms_no_bar(h: int, m: int, s: int)
    ensures
        forall|j: int|
            0 <= j < spec_hms(h, m, s).len() ==> #[trigger] spec_hms(h, m, s)[j] != '|',
{
    assert forall|j: int| 0 <= j < spec_hms(h, m, s).len() implies #[trigger] spec_hms(h, m, s)[j]
        != '|' by {
        assert(spec_hms(h, m, s)[0] == spec_digit(h / 10));
        assert(spec_hms(h, m, s)[1] == spec_digit(h % 10));
        assert(spec_hms(h, m, s)[2] == ':');
        assert(spec_hms(h, m, s)[3] == spec_digit(m / 10));
        assert(spec_hms(h, m, s)[4] == spec_digit(m % 10));
        assert(spec_hms(h, m, s)[5] == ':');
        assert(spec_hms(h, m, s)[6] == spec_digit(s / 10));
        assert(spec_hms(h, m, s)[7] == spec_digit(s % 10));
    }
}

impl Default for ClockModule {
    /// A fresh clock: never refreshed (epoch instant), nothing cached.
    fn default() -> (c: ClockModule)
        ensures
            c@.last_refresh_ms == 0,
            c@.cache is None,
    {
        ClockModule { last_refresh_ms: 0, cache: None }
    }
}

} // verus!

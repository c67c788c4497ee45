//! The driver: the fixed, ordered list of modules, the per-iteration poll
//! pass, and the conditional render pass that joins every module's text
//! with a fixed separator into one output line.

use crate::battery::battery_after_poll;
use crate::battery::battery_after_render;
use crate::battery::battery_change_at;
use crate::battery::battery_text;
use crate::battery::BatteryModule;
use crate::battery::BatteryView;
use crate::battery::lemma_battery_text_no_bar;
use crate::clock::clock_after_render;
use crate::clock::clock_ready_at;
use crate::clock::clock_wf;
use crate::clock::lemma_hms_no_bar;
use crate::clock::spec_hms;
use crate::clock::ClockModule;
use crate::clock::ClockView;
use chrono::Timelike;
use vstd::prelude::*;
use vstd::string::StringExecFns;

verus! {

/// The soft per-iteration budget of the polling loop, in milliseconds.
pub const TARGET_INTERVAL_MS: u64 = 100;

/// Abstract state of a [`StatusModule`].
#[verifier::ext_equal]
pub ghost enum ModuleView {
    Clock(ClockView),
    Battery(BatteryView),
}

/// One polled data source of the status line: the closed set of variants
/// the driver knows how to poll and render.
pub enum StatusModule {
    Clock(ClockModule),
    Battery(BatteryModule),
}

impl View for StatusModule {
    type V = ModuleView;

    open spec fn view(&self) -> ModuleView {
        match self {
            StatusModule::Clock(c) => ModuleView::Clock(c@),
            StatusModule::Battery(b) => ModuleView::Battery(b@),
        }
    }
}

/// The module's current cached text: the clock's cached `HH:MM:SS`, or
/// the battery's stripped reading with its suffix.
pub open spec fn module_text(m: ModuleView) -> Seq<char> {
    match m {
        ModuleView::Clock(c) => c.cache->Some_0,
        ModuleView::Battery(b) => battery_text(b.current),
    }
}

/// The module's state after the poll pass took the raw battery reading
/// `raw`: polling leaves a clock untouched and re-caches a battery's
/// reading.
pub open spec fn polled_module(m: ModuleView, now_ms: u64, raw: Seq<char>) -> ModuleView {
    match m {
        ModuleView::Clock(c) => ModuleView::Clock(c),
        ModuleView::Battery(_) => ModuleView::Battery(battery_after_poll(raw)),
    }
}

/// Whether the poll pass at instant `now_ms` with battery reading `raw`
/// reports this module as changed.
pub open spec fn module_change(m: ModuleView, now_ms: u64, raw: Seq<char>) -> bool {
    match m {
        ModuleView::Clock(c) => clock_ready_at(c, now_ms),
        ModuleView::Battery(b) => battery_change_at(b, raw),
    }
}

/// The module's state after the render pass, where `ready` is the flag
/// its own poll reported and `h`/`mi`/`s` the local time of day fetched
/// for a clock refresh.
pub open spec fn rendered_module(
    m: ModuleView,
    ready: bool,
    now_ms: u64,
    h: int,
    mi: int,
    s: int,
    raw: Seq<char>,
) -> ModuleView {
    match m {
        ModuleView::Clock(c) => ModuleView::Clock(clock_after_render(c, ready, now_ms, h, mi, s)),
        ModuleView::Battery(b) => ModuleView::Battery(battery_after_render(b, raw)),
    }
}

/// What polling a module at `now_ms` presumes: a clock's stored refresh
/// instant must not lie in the future (a wall clock running backwards is
/// fatal upstream).
pub open spec fn module_can_poll(m: ModuleView, now_ms: u64) -> bool {
    match m {
        ModuleView::Clock(c) => now_ms >= c.last_refresh_ms,
        ModuleView::Battery(_) => true,
    }
}

/// What rendering a module presumes: a clock that is not about to refresh
/// must already hold a cached text, and a battery must have a non-empty
/// reading to strip (its own if initialized, the fallback `raw` if not).
pub open spec fn module_can_render(m: ModuleView, ready: bool, raw: Seq<char>) -> bool {
    match m {
        ModuleView::Clock(c) => ready || c.cache is Some,
        ModuleView::Battery(b) => (b.last_hash == 0 ==> raw.len() >= 1) && (b.last_hash != 0
            ==> b.current.len() >= 1),
    }
}

/// What one whole iteration presumes of a module beyond
/// [`module_can_poll`]: a clock that has never refreshed must be due for
/// its first refresh, so that the first render never meets an empty
/// cache.
pub open spec fn module_first_refresh_due(m: ModuleView, now_ms: u64) -> bool {
    match m {
        ModuleView::Clock(c) => c.cache is None ==> clock_ready_at(c, now_ms),
        ModuleView::Battery(_) => true,
    }
}

/// The fixed separator written between consecutive module texts.
pub open spec fn separator() -> Seq<char> {
    seq![' ', '|', ' ']
}

/// The texts of a sequence of modules joined with the separator between
/// consecutive ones — not before the first, not after the last.
pub open spec fn joined_texts(ms: Seq<ModuleView>) -> Seq<char>
    decreases ms.len(),
{
    if ms.len() == 0 {
        Seq::empty()
    } else if ms.len() == 1 {
        module_text(ms[0])
    } else {
        joined_texts(ms.drop_last()) + separator() + module_text(ms.last())
    }
}

/// The views of the modules in a module list, in order, flags dropped.
pub open spec fn module_views(s: Seq<(StatusModule, bool)>) -> Seq<ModuleView> {
    Seq::new(s.len(), |i: int| s[i].0@)
}

impl StatusModule {
    /// Poll pass entry: fetch/refresh the module's change-detection state
    /// and report whether its displayable state changed. `now_ms` is the
    /// current instant, `battery_reading` the raw text of a fresh read of
    /// the battery capacity source; each variant consumes the input it
    /// needs.
    pub fn ready(&mut self, now_ms: u64, battery_reading: &str) -> (changed: bool)
        requires
            module_can_poll(old(self)@, now_ms),
        ensures
            final(self)@ == polled_module(old(self)@, now_ms, battery_reading@),
            changed == module_change(old(self)@, now_ms, battery_reading@),
    {
        match self {
            StatusModule::Clock(c) => c.ready(now_ms),
            StatusModule::Battery(b) => b.ready(battery_reading),
        }
    }

    /// Render pass entry: refresh what `ready` says is due (a clock picks
    /// up the given local time of day; a never-initialized battery falls
    /// back on `battery_reading`), then append the module's current text
    /// to `out`.
    pub fn go(
        &mut self,
        ready: bool,
        now_ms: u64,
        hour: u8,
        minute: u8,
        second: u8,
        battery_reading: &str,
        out: &mut String,
    )
        requires
            hour < 24,
            minute < 60,
            second < 60,
            module_can_render(old(self)@, ready, battery_reading@),
        ensures
            final(self)@ == rendered_module(
                old(self)@,
                ready,
                now_ms,
                hour as int,
                minute as int,
                second as int,
                battery_reading@,
            ),
            final(out)@ == old(out)@ + module_text(final(self)@),
    {
        match self {
            StatusModule::Clock(c) => c.go(ready, now_ms, hour, minute, second, out),
            StatusModule::Battery(b) => b.go(ready, battery_reading, out),
        }
    }
}

/// Appending one more module extends the joined texts by one separator
/// and that module's text.
proof fn lemma_joined_push(ms: Seq<ModuleView>, m: ModuleView)
    requires
        ms.len() >= 1,
    ensures
        joined_texts(ms.push(m)) == joined_texts(ms) + separator() + module_text(m),
{
    assert(ms.push(m).drop_last() =~= ms);
    assert(ms.push(m).last() == m);
}

/// The poll pass of one iteration: asks every module, in order, whether
/// its displayable state changed, stores each answer as the module's
/// flag, and reports whether any module answered yes.
pub fn poll_pass(modules: &mut Vec<(StatusModule, bool)>, now_ms: u64, battery_reading: &str) -> (updated: bool)
    requires
        forall|i: int|
            0 <= i < old(modules)@.len() ==> module_can_poll(
                (#[trigger] old(modules)@[i]).0@,
                now_ms,
            ),
    ensures
        final(modules)@.len() == old(modules)@.len(),
        forall|i: int|
            0 <= i < old(modules)@.len() ==> (#[trigger] final(modules)@[i]).0@ == polled_module(
                old(modules)@[i].0@,
                now_ms,
                battery_reading@,
            ) && final(modules)@[i].1 == module_change(
                old(modules)@[i].0@,
                now_ms,
                battery_reading@,
            ),
        updated == exists|i: int|
            0 <= i < final(modules)@.len() && (#[trigger] final(modules)@[i]).1,
{
    let ghost orig = modules@;
    let n = modules.len();
    let mut res: Vec<(StatusModule, bool)> = Vec::new();
    let mut updated = false;
    while modules.len() > 0
        invariant
            res@.len() + modules@.len() == n,
            n == orig.len(),
            forall|i: int|
                0 <= i < modules@.len() ==> #[trigger] modules@[i] == orig[res@.len() + i],
            forall|i: int|
                0 <= i < orig.len() ==> module_can_poll((#[trigger] orig[i]).0@, now_ms),
            forall|i: int|
                0 <= i < res@.len() ==> (#[trigger] res@[i]).0@ == polled_module(
                    orig[i].0@,
                    now_ms,
                    battery_reading@,
                ) && res@[i].1 == module_change(orig[i].0@, now_ms, battery_reading@),
            updated == exists|i: int| 0 <= i < res@.len() && (#[trigger] res@[i]).1,
        decreases modules@.len(),
    {
        let (mut m, _) = modules.remove(0);
        let flag = m.ready(now_ms, battery_reading);
        let ghost prev = res@;
        if flag {
            updated = true;
        }
        res.push((m, flag));
        proof {
            if flag {
                assert(res@[res@.len() - 1].1);
            } else if updated {
                let j = choose|j: int| 0 <= j < prev.len() && (#[trigger] prev[j]).1;
                assert(res@[j] == prev[j]);
                assert(res@[j].1);
            } else {
                assert forall|i: int| 0 <= i < res@.len() implies !(#[trigger] res@[i]).1 by {
                    if i < prev.len() {
                        assert(res@[i] == prev[i]);
                    } else {
                        assert(res@[i] == res@[res@.len() - 1]);
                    }
                }
            }
        }
    }
    *modules = res;
    updated
}

/// The render pass of one iteration: every module, in order and whatever
/// its own flag said, writes its current text to `out`, separated from
/// the previous module's text by the fixed separator; one newline ends
/// the line. An empty module list writes nothing.
pub fn modules_go(
    modules: &mut Vec<(StatusModule, bool)>,
    now_ms: u64,
    hour: u8,
    minute: u8,
    second: u8,
    battery_reading: &str,
    out: &mut String,
)
    requires
        hour < 24,
        minute < 60,
        second < 60,
        forall|i: int|
            0 <= i < old(modules)@.len() ==> module_can_render(
                (#[trigger] old(modules)@[i]).0@,
                old(modules)@[i].1,
                battery_reading@,
            ),
    ensures
        final(modules)@.len() == old(modules)@.len(),
        forall|i: int|
            0 <= i < old(modules)@.len() ==> (#[trigger] final(modules)@[i]).0@ == rendered_module(
                old(modules)@[i].0@,
                old(modules)@[i].1,
                now_ms,
                hour as int,
                minute as int,
                second as int,
                battery_reading@,
            ) && final(modules)@[i].1 == old(modules)@[i].1,
        old(modules)@.len() == 0 ==> final(out)@ == old(out)@,
        old(modules)@.len() > 0 ==> final(out)@ == old(out)@ + joined_texts(
            module_views(final(modules)@),
        ) + seq!['\n'],
{
    let ghost orig = modules@;
    let ghost out0 = out@;
    let n = modules.len();
    if n == 0 {
        return ;
    }
    let mut res: Vec<(StatusModule, bool)> = Vec::new();
    let (mut m, flag) = modules.remove(0);
    m.go(flag, now_ms, hour, minute, second, battery_reading, out);
    res.push((m, flag));
    proof {
        assert(module_views(res@) =~= seq![res@[0].0@]);
        assert(out@ =~= out0 + joined_texts(module_views(res@)));
    }
    while modules.len() > 0
        invariant
            1 <= res@.len(),
            res@.len() + modules@.len() == n,
            n == orig.len(),
            hour < 24,
            minute < 60,
            second < 60,
            forall|i: int|
                0 <= i < modules@.len() ==> #[trigger] modules@[i] == orig[res@.len() + i],
            forall|i: int|
                0 <= i < orig.len() ==> module_can_render(
                    (#[trigger] orig[i]).0@,
                    orig[i].1,
                    battery_reading@,
                ),
            forall|i: int|
                0 <= i < res@.len() ==> (#[trigger] res@[i]).0@ == rendered_module(
                    orig[i].0@,
                    orig[i].1,
                    now_ms,
                    hour as int,
                    minute as int,
                    second as int,
                    battery_reading@,
                ) && res@[i].1 == orig[i].1,
            out@ == out0 + joined_texts(module_views(res@)),
        decreases modules@.len(),
    {
        out.append(" | ");
        let (mut m2, flag2) = modules.remove(0);
        m2.go(flag2, now_ms, hour, minute, second, battery_reading, out);
        let ghost prev_views = module_views(res@);
        res.push((m2, flag2));
        proof {
            reveal_strlit(" | ");
            assert(" | "@ =~= separator());
            assert(module_views(res@) =~= prev_views.push(res@[res@.len() - 1].0@));
            lemma_joined_push(prev_views, res@[res@.len() - 1].0@);
            assert(out@ =~= out0 + joined_texts(module_views(res@)));
        }
    }
    out.append("\n");
    *modules = res;
    proof {
        reveal_strlit("\n");
        assert("\n"@ =~= seq!['\n']);
        assert(out@ =~= out0 + joined_texts(module_views(res@)) + seq!['\n']);
        assert(module_views(res@) =~= module_views(modules@));
    }
}

/// The views of the entries of a module list, flags kept.
pub open spec fn bar_view(s: Seq<(StatusModule, bool)>) -> Seq<(ModuleView, bool)> {
    Seq::new(s.len(), |i: int| (s[i].0@, s[i].1))
}

/// The module views of an abstract module list, flags dropped.
pub open spec fn views_only(s: Seq<(ModuleView, bool)>) -> Seq<ModuleView> {
    Seq::new(s.len(), |i: int| s[i].0)
}

/// The view of an optional output line.
pub open spec fn opt_string_view(line: Option<String>) -> Option<Seq<char>> {
    match line {
        Some(l) => Some(l@),
        None => None,
    }
}

/// Whether the poll pass of an iteration at `now_ms` with battery reading
/// `raw` reports any module of the list as changed.
pub open spec fn step_updated(before: Seq<(ModuleView, bool)>, now_ms: u64, raw: Seq<char>) -> bool {
    exists|i: int| 0 <= i < before.len() && module_change((#[trigger] before[i]).0, now_ms, raw)
}

/// The module's state after one whole iteration that rendered: polled
/// first, then rendered with the flag its own poll reported.
pub open spec fn stepped_module(
    m: ModuleView,
    now_ms: u64,
    h: int,
    mi: int,
    s: int,
    raw: Seq<char>,
) -> ModuleView {
    rendered_module(
        polled_module(m, now_ms, raw),
        module_change(m, now_ms, raw),
        now_ms,
        h,
        mi,
        s,
        raw,
    )
}

/// The full contract of one iteration over a module list: every module is
/// polled and its flag stored; when no module reports a change the list
/// is left at its polled state and no line is produced; when at least one
/// does, every module renders and the one produced line is all module
/// texts joined by the separator, ended by one newline.
pub open spec fn step_post(
    before: Seq<(ModuleView, bool)>,
    after: Seq<(ModuleView, bool)>,
    now_ms: u64,
    h: int,
    mi: int,
    s: int,
    raw: Seq<char>,
    line: Option<Seq<char>>,
) -> bool {
    let updated = step_updated(before, now_ms, raw);
    &&& after.len() == before.len()
    &&& forall|i: int|
        0 <= i < before.len() ==> (#[trigger] after[i]).1 == module_change(
            before[i].0,
            now_ms,
            raw,
        )
    &&& (updated ==> {
        &&& forall|i: int|
            0 <= i < before.len() ==> (#[trigger] after[i]).0 == stepped_module(
                before[i].0,
                now_ms,
                h,
                mi,
                s,
                raw,
            )
        &&& line is Some
        &&& line->Some_0 == joined_texts(views_only(after)) + seq!['\n']
    })
    &&& (!updated ==> {
        &&& forall|i: int|
            0 <= i < before.len() ==> (#[trigger] after[i]).0 == polled_module(
                before[i].0,
                now_ms,
                raw,
            )
        &&& line is None
    })
}

/// One iteration of the driver at a known local time of day: the poll
/// pass over every module, then — only if some module reported a change —
/// the render pass, whose one line is returned instead of written, with
/// its trailing newline.
pub fn step_at(
    modules: &mut Vec<(StatusModule, bool)>,
    now_ms: u64,
    hour: u8,
    minute: u8,
    second: u8,
    battery_reading: &str,
) -> (line: Option<String>)
    requires
        hour < 24,
        minute < 60,
        second < 60,
        battery_reading@.len() >= 1,
        forall|i: int|
            0 <= i < old(modules)@.len() ==> module_can_poll(
                (#[trigger] old(modules)@[i]).0@,
                now_ms,
            ),
        forall|i: int|
            0 <= i < old(modules)@.len() ==> module_first_refresh_due(
                (#[trigger] old(modules)@[i]).0@,
                now_ms,
            ),
    ensures
        step_post(
            bar_view(old(modules)@),
            bar_view(final(modules)@),
            now_ms,
            hour as int,
            minute as int,
            second as int,
            battery_reading@,
            opt_string_view(line),
        ),
{
    let ghost before = bar_view(modules@);
    let updated = poll_pass(modules, now_ms, battery_reading);
    let ghost polled = bar_view(modules@);
    proof {
        if updated {
            let j = choose|j: int| 0 <= j < modules@.len() && (#[trigger] modules@[j]).1;
            assert(module_change(before[j].0, now_ms, battery_reading@));
        }
        if step_updated(before, now_ms, battery_reading@) {
            let j = choose|j: int|
                0 <= j < before.len() && module_change((#[trigger] before[j]).0, now_ms, battery_reading@);
            assert(modules@[j].1);
        }
        assert(updated == step_updated(before, now_ms, battery_reading@));
    }
    if updated {
        proof {
            assert forall|i: int|
                0 <= i < modules@.len() implies module_can_render(
                (#[trigger] modules@[i]).0@,
                modules@[i].1,
                battery_reading@,
            ) by {
                let m0 = before[i].0;
                assert(modules@[i].0@ == polled_module(m0, now_ms, battery_reading@));
                assert(modules@[i].1 == module_change(m0, now_ms, battery_reading@));
                assert(module_first_refresh_due(m0, now_ms));
            }
        }
        let mut out = String::new();
        modules_go(modules, now_ms, hour, minute, second, battery_reading, &mut out);
        proof {
            let after = bar_view(modules@);
            assert forall|i: int| 0 <= i < before.len() implies (#[trigger] after[i]).0
                == stepped_module(
                before[i].0,
                now_ms,
                hour as int,
                minute as int,
                second as int,
                battery_reading@,
            ) && after[i].1 == module_change(before[i].0, now_ms, battery_reading@) by {
                assert(modules@[i].0@ == rendered_module(
                    polled[i].0,
                    polled[i].1,
                    now_ms,
                    hour as int,
                    minute as int,
                    second as int,
                    battery_reading@,
                ));
            }
            assert(views_only(after) =~= module_views(modules@));
            assert(out@ == joined_texts(views_only(after)) + seq!['\n']);
        }
        Some(out)
    } else {
        None
    }
}

/// Relies on chrono's `Local::now` and its `Timelike` accessors, for the
/// current local time of day: the hour is 0 to 23, the minute and the
/// second 0 to 59 (chrono carries a leap second inside the previous
/// second's nanosecond field, so `second()` stays below 60).
#[verifier::external_body]
fn local_hms() -> (r: (u8, u8, u8))
    ensures
        r.0 < 24,
        r.1 < 60,
        r.2 < 60,
{
    let t = chrono::Local::now();
    (t.hour() as u8, t.minute() as u8, t.second() as u8)
}

/// One iteration of the driver against the live local clock: as
/// [`step_at`], at the local time of day the host reports while
/// rendering. Everything [`step_post`] states holds for that time of
/// day, whatever it was.
pub fn step(modules: &mut Vec<(StatusModule, bool)>, now_ms: u64, battery_reading: &str) -> (line:
    Option<String>)
    requires
        battery_reading@.len() >= 1,
        forall|i: int|
            0 <= i < old(modules)@.len() ==> module_can_poll(
                (#[trigger] old(modules)@[i]).0@,
                now_ms,
            ),
        forall|i: int|
            0 <= i < old(modules)@.len() ==> module_first_refresh_due(
                (#[trigger] old(modules)@[i]).0@,
                now_ms,
            ),
    ensures
        exists|h: int, mi: int, s: int|
            0 <= h < 24 && 0 <= mi < 60 && 0 <= s < 60 && #[trigger] step_post(
                bar_view(old(modules)@),
                bar_view(final(modules)@),
                now_ms,
                h,
                mi,
                s,
                battery_reading@,
                opt_string_view(line),
            ),
{
    let (hour, minute, second) = local_hms();
    let line = step_at(modules, now_ms, hour, minute, second, battery_reading);
    proof {
        assert(step_post(
            bar_view(old(modules)@),
            bar_view(modules@),
            now_ms,
            hour as int,
            minute as int,
            second as int,
            battery_reading@,
            opt_string_view(line),
        ));
    }
    line
}

/// The number of occurrences of the character `c` in `s`.
pub open spec fn count_char(s: Seq<char>, c: char) -> nat
    decreases s.len(),
{
    if s.len() == 0 {
        0
    } else {
        count_char(s.drop_last(), c) + (if s.last() == c {
            1nat
        } else {
            0nat
        })
    }
}

/// Character counts add up over concatenation.
proof fn lemma_count_char_concat(a: Seq<char>, b: Seq<char>, c: char)
    ensures
        count_char(a + b, c) == count_char(a, c) + count_char(b, c),
    decreases b.len(),
{
    if b.len() == 0 {
        assert(a + b =~= a);
    } else {
        assert((a + b).drop_last() =~= a + b.drop_last());
        lemma_count_char_concat(a, b.drop_last(), c);
        assert((a + b).last() == b.last());
    }
}

/// A sequence without the character has count zero.
proof fn lemma_count_char_absent(s: Seq<char>, c: char)
    requires
        forall|j: int| 0 <= j < s.len() ==> #[trigger] s[j] != c,
    ensures
        count_char(s, c) == 0,
    decreases s.len(),
{
    if s.len() > 0 {
        assert forall|j: int| 0 <= j < s.drop_last().len() implies #[trigger] s.drop_last()[j]
            != c by {
            assert(s.drop_last()[j] == s[j]);
        }
        lemma_count_char_absent(s.drop_last(), c);
    }
}

/// The separator contains the bar character exactly once.
proof fn lemma_count_separator()
    ensures
        count_char(separator(), '|') == 1,
{
    let sep = separator();
    assert(sep.drop_last() =~= seq![' ', '|']);
    assert(seq![' ', '|'].drop_last() =~= seq![' ']);
    assert(seq![' '].drop_last() =~= Seq::<char>::empty());
    assert(count_char(Seq::<char>::empty(), '|') == 0);
    assert(count_char(seq![' '], '|') == 0);
    assert(count_char(seq![' ', '|'], '|') == 1);
    assert(count_char(sep, '|') == 1);
}

/// Separator law: when every module text is non-empty and free of the
/// bar character, the joined line of `N` modules contains the bar
/// exactly `N − 1` times, never as its first or last character, and
/// always with the separator's spaces on both sides — so the separator
/// ` | ` occurs exactly `N − 1` times, neither leading nor trailing.
pub proof fn lemma_separator_count(ms: Seq<ModuleView>)
    requires
        ms.len() >= 1,
        forall|i: int| 0 <= i < ms.len() ==> #[trigger] module_text(ms[i]).len() >= 1,
        forall|i: int, j: int|
            0 <= i < ms.len() && 0 <= j < module_text(ms[i]).len() ==> #[trigger] module_text(
                ms[i],
            )[j] != '|',
    ensures
        joined_texts(ms).len() >= 1,
        count_char(joined_texts(ms), '|') == ms.len() - 1,
        joined_texts(ms)[0] != '|',
        joined_texts(ms).last() != '|',
        forall|k: int|
            0 <= k < joined_texts(ms).len() && #[trigger] joined_texts(ms)[k] == '|' ==> 1 <= k
                < joined_texts(ms).len() - 1 && joined_texts(ms)[k - 1] == ' ' && joined_texts(
                ms,
            )[k + 1] == ' ',
    decreases ms.len(),
{
    if ms.len() == 1 {
        assert(joined_texts(ms) == module_text(ms[0]));
        lemma_count_char_absent(module_text(ms[0]), '|');
    } else {
        let prefix = ms.drop_last();
        let a = joined_texts(prefix);
        let t = module_text(ms.last());
        let sep = separator();
        let whole = joined_texts(ms);
        assert forall|i: int| 0 <= i < prefix.len() implies #[trigger] module_text(
            prefix[i],
        ).len() >= 1 by {
            assert(prefix[i] == ms[i]);
        }
        assert forall|i: int, j: int|
            0 <= i < prefix.len() && 0 <= j < module_text(prefix[i]).len() implies #[trigger] module_text(
            prefix[i],
        )[j] != '|' by {
            assert(prefix[i] == ms[i]);
        }
        lemma_separator_count(prefix);
        lemma_count_char_concat(a + sep, t, '|');
        lemma_count_char_concat(a, sep, '|');
        lemma_count_separator();
        assert(forall|j: int| 0 <= j < t.len() ==> #[trigger] t[j] != '|');
        lemma_count_char_absent(t, '|');
        assert(whole == a + sep + t);
        assert(whole.len() == a.len() + 3 + t.len());
        assert(whole[0] == a[0]);
        assert(whole.last() == t.last());
        assert forall|k: int|
            0 <= k < whole.len() && #[trigger] whole[k] == '|' implies 1 <= k < whole.len() - 1
            && whole[k - 1] == ' ' && whole[k + 1] == ' ' by {
            if k < a.len() {
                assert(whole[k] == a[k]);
                assert(whole[k - 1] == a[k - 1]);
                assert(whole[k + 1] == a[k + 1]);
            } else if k == a.len() {
                assert(whole[k] == sep[0]);
            } else if k == a.len() + 1 {
                assert(whole[k - 1] == sep[0]);
                assert(whole[k + 1] == sep[2]);
            } else if k == a.len() + 2 {
                assert(whole[k] == sep[2]);
            } else {
                assert(whole[k] == t[k - a.len() - 3]);
            }
        }
    }
}

/// Validity of a module's own cached state, as every constructed module
/// establishes it and every pass preserves it.
pub open spec fn module_wf(m: ModuleView) -> bool {
    match m {
        ModuleView::Clock(c) => clock_wf(c),
        ModuleView::Battery(_) => true,
    }
}

/// Every iteration preserves a module's validity: a poll alone leaves a
/// clock's cache as it was and stores a battery reading, and a render
/// only ever caches a rendering of the in-range time of day it was
/// handed. Construction establishes validity, so every module list the
/// driver ever holds is valid.
pub proof fn lemma_step_preserves_wf(
    m0: ModuleView,
    now_ms: u64,
    h: int,
    mi: int,
    s: int,
    raw: Seq<char>,
)
    requires
        0 <= h < 24,
        0 <= mi < 60,
        0 <= s < 60,
        module_wf(m0),
    ensures
        module_wf(polled_module(m0, now_ms, raw)),
        module_wf(stepped_module(m0, now_ms, h, mi, s, raw)),
{
    match m0 {
        ModuleView::Clock(c) => {
            if clock_ready_at(c, now_ms) {
                let c1 = clock_after_render(c, true, now_ms, h, mi, s);
                assert(c1.cache->Some_0 == spec_hms(h, mi, s));
            }
        },
        ModuleView::Battery(_) => {
        },
    }
}

/// After one whole rendered iteration, a module's text is non-empty and
/// free of the bar character, provided the battery reading is non-empty
/// and bar-free and the module started the iteration valid.
proof fn lemma_stepped_text_no_bar(m0: ModuleView, now_ms: u64, h: int, mi: int, s: int, raw: Seq<char>)
    requires
        0 <= h < 24,
        0 <= mi < 60,
        0 <= s < 60,
        raw.len() >= 1,
        forall|j: int| 0 <= j < raw.len() ==> #[trigger] raw[j] != '|',
        module_wf(m0),
        module_first_refresh_due(m0, now_ms),
    ensures
        module_text(stepped_module(m0, now_ms, h, mi, s, raw)).len() >= 1,
        forall|j: int|
            0 <= j < module_text(stepped_module(m0, now_ms, h, mi, s, raw)).len()
                ==> #[trigger] module_text(stepped_module(m0, now_ms, h, mi, s, raw))[j] != '|',
{
    let m1 = stepped_module(m0, now_ms, h, mi, s, raw);
    match m0 {
        ModuleView::Clock(c) => {
            if clock_ready_at(c, now_ms) {
                assert(module_text(m1) == spec_hms(h, mi, s));
                lemma_hms_no_bar(h, mi, s);
            } else {
                assert(c.cache is Some);
                let (h2, m2, s2) = choose|h2: int, m2: int, s2: int|
                    0 <= h2 < 24 && 0 <= m2 < 60 && 0 <= s2 < 60 && c.cache->Some_0
                        == #[trigger] spec_hms(h2, m2, s2);
                assert(module_text(m1) == spec_hms(h2, m2, s2));
                lemma_hms_no_bar(h2, m2, s2);
            }
        },
        ModuleView::Battery(b) => {
            assert(m1 == ModuleView::Battery(battery_after_poll(raw)));
            lemma_battery_text_no_bar(raw);
        },
    }
}

/// Separator law for a rendered iteration: when some module reported a
/// change, the battery reading is non-empty and free of the bar
/// character, and every module starts the iteration valid, the one
/// produced line of `N` modules ends in its single newline and carries
/// the bar character exactly `N − 1` times, each flanked by the
/// separator's spaces and never first — the separator ` | ` stands
/// exactly between consecutive module texts, neither leading nor
/// trailing.
pub proof fn lemma_step_line_separators(
    before: Seq<(ModuleView, bool)>,
    after: Seq<(ModuleView, bool)>,
    now_ms: u64,
    h: int,
    mi: int,
    s: int,
    raw: Seq<char>,
    line: Option<Seq<char>>,
)
    requires
        step_post(before, after, now_ms, h, mi, s, raw, line),
        step_updated(before, now_ms, raw),
        before.len() >= 1,
        0 <= h < 24,
        0 <= mi < 60,
        0 <= s < 60,
        raw.len() >= 1,
        forall|j: int| 0 <= j < raw.len() ==> #[trigger] raw[j] != '|',
        forall|i: int| 0 <= i < before.len() ==> module_wf((#[trigger] before[i]).0),
        forall|i: int|
            0 <= i < before.len() ==> module_first_refresh_due((#[trigger] before[i]).0, now_ms),
    ensures
        line is Some,
        line->Some_0.len() >= 2,
        line->Some_0.last() == '\n',
        count_char(line->Some_0, '|') == before.len() - 1,
        forall|k: int|
            0 <= k < line->Some_0.len() && #[trigger] line->Some_0[k] == '|' ==> 1 <= k
                && line->Some_0[k - 1] == ' ' && line->Some_0[k + 1] == ' ',
{
    let vs = views_only(after);
    assert forall|i: int| 0 <= i < vs.len() implies #[trigger] module_text(vs[i]).len() >= 1 by {
        lemma_stepped_text_no_bar(before[i].0, now_ms, h, mi, s, raw);
        assert(vs[i] == after[i].0);
    }
    assert forall|i: int, j: int|
        0 <= i < vs.len() && 0 <= j < module_text(vs[i]).len() implies #[trigger] module_text(
        vs[i],
    )[j] != '|' by {
        lemma_stepped_text_no_bar(before[i].0, now_ms, h, mi, s, raw);
        assert(vs[i] == after[i].0);
    }
    lemma_separator_count(vs);
    let joined = joined_texts(vs);
    let l = line->Some_0;
    assert(l == joined + seq!['\n']);
    lemma_count_char_concat(joined, seq!['\n'], '|');
    assert(seq!['\n'].drop_last() =~= Seq::<char>::empty());
    assert(seq!['\n'].last() == '\n');
    assert(count_char(Seq::<char>::empty(), '|') == 0);
    assert(count_char(seq!['\n'], '|') == count_char(seq!['\n'].drop_last(), '|'));
    assert forall|k: int| 0 <= k < l.len() && #[trigger] l[k] == '|' implies 1 <= k && l[k - 1]
        == ' ' && l[k + 1] == ' ' by {
        assert(k != joined.len());
        assert(l[k] == joined[k]);
        assert(l[k - 1] == joined[k - 1]);
        assert(l[k + 1] == joined[k + 1]);
    }
}

/// How much longer an iteration that took `elapsed_ms` should still
/// sleep: the remainder of the fixed per-iteration budget, or nothing
/// when the budget was already overrun.
pub fn remaining_budget(elapsed_ms: u64) -> (r: u64)
    ensures
        r == (if elapsed_ms < TARGET_INTERVAL_MS {
            TARGET_INTERVAL_MS - elapsed_ms
        } else {
            0
        }),
{
    if elapsed_ms < TARGET_INTERVAL_MS {
        TARGET_INTERVAL_MS - elapsed_ms
    } else {
        0
    }
}

} // verus!

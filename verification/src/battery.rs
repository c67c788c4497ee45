//! The battery module: caches the raw reading of a battery capacity
//! source and detects change between successive readings by a 64-bit
//! fingerprint.

use std::collections::hash_map::DefaultHasher;
use std::hash::Hasher;
use vstd::prelude::*;
use vstd::std_specs::hash::DefaultHasherAdditionalSpecFns;
use vstd::string::StrSliceExecFns;
use vstd::string::StringExecFns;

verus! {

/// The fingerprint of a string: the digest that `DefaultHasher` produces
/// after one write of the string's UTF-8 bytes.
pub open spec fn spec_hash_str(s: Seq<char>) -> u64 {
    DefaultHasher::spec_finish(seq![vstd::utf8::encode_utf8(s)])
}

/// Fingerprints a string with std's `DefaultHasher` over its UTF-8 bytes.
/// The same string always yields the same fingerprint.
pub fn hash_str(s: &str) -> (r: u64)
    ensures
        r == spec_hash_str(s@),
{
    let mut hasher = DefaultHasher::new();
    hasher.write(s.as_bytes());
    proof {
        assert(hasher@ =~= seq![vstd::utf8::encode_utf8(s@)]);
    }
    hasher.finish()
}

/// The fixed suffix appended after the stripped battery reading.
pub open spec fn battery_suffix() -> Seq<char> {
    seq!['%', ' ', 'B', 'a', 't', 't', 'e', 'r', 'y']
}

/// The battery module's rendered text for a raw reading: the reading with
/// its single trailing line terminator removed, then `% Battery`.
pub open spec fn battery_text(raw: Seq<char>) -> Seq<char> {
    raw.take(raw.len() - 1) + battery_suffix()
}

/// Abstract state of a [`BatteryModule`]: the raw reading as last taken
/// from the capacity source (trailing newline included), and the
/// fingerprint of the last reading that counted as a change. A zero
/// fingerprint is the sentinel for "never initialized".
#[verifier::ext_equal]
pub ghost struct BatteryView {
    pub current: Seq<char>,
    pub last_hash: u64,
}

/// A polled battery capacity gauge. It does not read the capacity source
/// itself: each poll and each defensive initialization is handed the raw
/// text of a fresh read.
pub struct BatteryModule {
    pub current: String,
    pub last_hash: u64,
}

impl View for BatteryModule {
    type V = BatteryView;

    open spec fn view(&self) -> BatteryView {
        BatteryView { current: self.current@, last_hash: self.last_hash }
    }
}

/// The battery's state after one poll that took the raw reading `raw`:
/// the reading is always cached, and the fingerprint always ends up as
/// the reading's fingerprint (on a change it is overwritten; otherwise it
/// already was that value).
pub open spec fn battery_after_poll(raw: Seq<char>) -> BatteryView {
    BatteryView { current: raw, last_hash: spec_hash_str(raw) }
}

/// Whether a poll that takes the raw reading `raw` counts as a change for
/// a battery in state `b`: exactly when the reading's fingerprint differs
/// from the last one seen.
pub open spec fn battery_change_at(b: BatteryView, raw: Seq<char>) -> bool {
    spec_hash_str(raw) != b.last_hash
}

/// The battery's state after one render pass that could fall back on the
/// raw reading `raw`: untouched unless the fingerprint still was the
/// uninitialized sentinel, in which case the module first initializes
/// itself from `raw`.
pub open spec fn battery_after_render(b: BatteryView, raw: Seq<char>) -> BatteryView {
    if b.last_hash == 0 {
        battery_after_poll(raw)
    } else {
        b
    }
}

impl BatteryModule {
    /// Poll: caches the freshly read raw value unconditionally, and
    /// reports whether its fingerprint differs from the last one seen
    /// (updating the stored fingerprint when it does).
    pub fn ready(&mut self, reading: &str) -> (changed: bool)
        ensures
            final(self)@ == battery_after_poll(reading@),
            changed == battery_change_at(old(self)@, reading@),
    {
        self.current = reading.to_owned();
        let changed = hash_str(reading) != self.last_hash;
        if changed {
            self.last_hash = hash_str(reading);
        }
        proof {
            assert(self@ =~= battery_after_poll(reading@));
        }
        changed
    }

    /// Render-pass entry: if the fingerprint is still the uninitialized
    /// sentinel (no poll has happened, or a reading collided with it),
    /// first initializes the cache from `fallback`, a fresh read of the
    /// capacity source; then appends the cached reading, with its single
    /// trailing line terminator stripped and `% Battery` appended, to
    /// `out`. An empty cached reading has no terminator to strip, which
    /// is outside this module's contract with the capacity source.
    pub fn go(&mut self, _ready: bool, fallback: &str, out: &mut String)
        requires
            old(self)@.last_hash == 0 ==> fallback@.len() >= 1,
            old(self)@.last_hash != 0 ==> old(self)@.current.len() >= 1,
        ensures
            final(self)@ == battery_after_render(old(self)@, fallback@),
            final(out)@ == old(out)@ + battery_text(final(self)@.current),
    {
        if self.last_hash == 0 {
            self.current = fallback.to_owned();
            self.last_hash = hash_str(fallback);
        }
        let n = self.current.as_str().unicode_len();
        let body = self.current.as_str().substring_char(0, n - 1);
        out.append(body);
        out.append("% Battery");
        proof {
            reveal_strlit("% Battery");
            assert(self@ =~= battery_after_render(old(self)@, fallback@));
            assert("% Battery"@ =~= battery_suffix());
            assert(out@ =~= old(out)@ + battery_text(self@.current));
        }
    }
}

impl Default for BatteryModule {
    /// A fresh battery gauge: empty reading, sentinel fingerprint.
    fn default() -> (b: BatteryModule)
        ensures
            b@.current == Seq::<char>::empty(),
            b@.last_hash == 0,
    {
        BatteryModule { current: String::new(), last_hash: 0 }
    }
}

/// A rendered battery text contains the separator's bar character only
/// if the raw reading itself does.
pub proof fn lemma_battery_text_no_bar(raw: Seq<char>)
    requires
        raw.len() >= 1,
        forall|j: int| 0 <= j < raw.len() ==> #[trigger] raw[j] != '|',
    ensures
        forall|j: int|
            0 <= j < battery_text(raw).len() ==> #[trigger] battery_text(raw)[j] != '|',
{
    assert forall|j: int| 0 <= j < battery_text(raw).len() implies #[trigger] battery_text(raw)[j]
        != '|' by {
        if j < raw.len() - 1 {
            assert(battery_text(raw)[j] == raw[j]);
        } else {
            assert(battery_text(raw)[j] == battery_suffix()[j - (raw.len() - 1)]);
        }
    }
}

/// Change-detection law, unchanged content: when two successive polls
/// take byte-identical readings, the second poll never reports a change.
pub proof fn lemma_battery_no_change(raw1: Seq<char>, raw2: Seq<char>)
    requires
        raw1 == raw2,
    ensures
        !battery_change_at(battery_after_poll(raw1), raw2),
{
}

/// Change-detection law, changed content: when two successive polls take
/// different readings whose fingerprints also differ, the second poll
/// reports a change. (Two different readings that collide on their
/// fingerprint are indistinguishable from unchanged content — the
/// documented limit of fingerprint-based detection.)
pub proof fn lemma_battery_change(raw1: Seq<char>, raw2: Seq<char>)
    requires
        spec_hash_str(raw1) != spec_hash_str(raw2),
    ensures
        battery_change_at(battery_after_poll(raw1), raw2),
{
}

} // verus!

//! Recognising the mouse shake that opens a Drop while files are dragged.
//!
//! The platform code samples the cursor and the mouse button; the monitors
//! here decide, sample by sample, when a Drop opens and when the Drop a shake
//! opened is handed back on release.
use crate::text::{lowercased, str_equal, str_to_lowercase, str_trim, strip_suffix, trimmed, without_suffix};
use vstd::prelude::*;

verus! {

/// A process name as the blacklist compares it: trimmed, lower-cased and
/// without an `.exe` extension.
pub open spec fn process_key(name: Seq<char>) -> Seq<char> {
    without_suffix(lowercased(trimmed(name)), ".exe"@)
}

/// `active_process` matches a non-empty entry of the blacklist.
pub open spec fn blacklisted(active_process: Seq<char>, blacklist: Seq<String>) -> bool {
    exists|i: int|
        0 <= i < blacklist.len() && process_key(#[trigger] blacklist[i]@).len() > 0 && process_key(
            blacklist[i]@,
        ) == process_key(active_process)
}

/// A process is blacklisted exactly when its key (the name trimmed,
/// lower-cased and without `.exe`) equals the key of a non-empty entry: a
/// name whose key differs from the key of every entry is never blacklisted,
/// however the keys overlap, and an entry with the same key always matches.
pub proof fn lemma_blacklist_matches_whole_keys(active_process: Seq<char>, blacklist: Seq<String>)
    ensures
        blacklisted(active_process, blacklist) ==> exists|i: int|
            0 <= i < blacklist.len() && process_key(#[trigger] blacklist[i]@) == process_key(active_process)
                && process_key(blacklist[i]@).len() > 0,
        (forall|i: int| 0 <= i < blacklist.len() ==> process_key(#[trigger] blacklist[i]@) != process_key(active_process))
            ==> !blacklisted(active_process, blacklist),
        forall|i: int|
            0 <= i < blacklist.len() && process_key(#[trigger] blacklist[i]@) == process_key(active_process)
                && process_key(active_process).len() > 0 ==> blacklisted(active_process, blacklist),
{
}

/// Whether a shake over the window of `active_process` is ignored: the name
/// matches an entry of the blacklist, ignoring case, surrounding white space
/// and an `.exe` extension on either side. Empty entries match nothing.
pub fn is_process_blacklisted(active_process: &str, blacklist: &[String]) -> (listed: bool)
    ensures
        listed == blacklisted(active_process@, blacklist@),
{
    let active = str_to_lowercase(str_trim(active_process));
    let active_key = match strip_suffix(active.as_str(), ".exe") {
        Some(rest) => rest,
        None => active.as_str(),
    };
    let mut i: usize = 0;
    while i < blacklist.len()
        invariant
            i <= blacklist@.len(),
            active_key@ == process_key(active_process@),
            forall|j: int|
                0 <= j < i ==> !(process_key(#[trigger] blacklist@[j]@).len() > 0 && process_key(
                    blacklist@[j]@,
                ) == process_key(active_process@)),
        decreases blacklist@.len() - i,
    {
        let entry = str_to_lowercase(str_trim(blacklist[i].as_str()));
        let entry_key = match strip_suffix(entry.as_str(), ".exe") {
            Some(rest) => rest,
            None => entry.as_str(),
        };
        assert(entry_key@ == process_key(blacklist@[i as int]@));
        if !entry_key.is_empty() && str_equal(entry_key, active_key) {
            return true;
        }
        i = i + 1;
    }
    false
}

/// The direction of a horizontal move: 1 to the right, -1 to the left, 0 when
/// it is not longer than the threshold.
pub open spec fn direction_of(distance: int, threshold: int) -> i32 {
    if distance > threshold {
        1
    } else if distance < -threshold {
        -1i32
    } else {
        0
    }
}

/// The direction of a horizontal move of `distance` pixels.
pub fn shake_direction(distance: i64, threshold: i32) -> (direction: i32)
    ensures
        direction == direction_of(distance as int, threshold as int),
{
    let threshold = threshold as i64;
    if distance > threshold {
        1
    } else if distance < -threshold {
        -1
    } else {
        0
    }
}

/// More than `limit_ms` milliseconds lie between `since` and `now`
/// (nanoseconds on one monotonic clock; a `now` before `since` counts as no
/// time at all).
pub open spec fn timed_out(since: u64, now: u64, limit_ms: u64) -> bool {
    now > since && now - since > limit_ms * 1_000_000
}

fn elapsed_exceeds(since: u64, now: u64, limit_ms: u64) -> (exceeded: bool)
    ensures
        exceeded == timed_out(since, now, limit_ms),
{
    let elapsed = now.saturating_sub(since);
    (elapsed as u128) > (limit_ms as u128) * 1_000_000
}

/// What the platform code does after a sample.
#[derive(Debug, PartialEq, Eq)]
pub enum ShakeAction {
    /// Nothing.
    Wait,
    /// A shake was recognised: open a Drop at the cursor.
    OpenDrop,
    /// The drag ended: close this Drop, opened by a shake, if it stayed empty.
    CloseAfterRelease(String),
}

/// On release the Drop a shake opened, if any, is handed back to be closed.
pub open spec fn hands_back(action: ShakeAction, active_drop: Option<Seq<char>>) -> bool {
    match active_drop {
        Some(id) => action matches ShakeAction::CloseAfterRelease(d) && d@ == id,
        None => action == ShakeAction::Wait,
    }
}

/// The counting of direction changes shared by both monitors.
#[derive(Debug)]
struct ShakeCounter {
    count: u32,
    last_direction: Option<i32>,
    last_shake_nanos: u64,
}

/// The move in `direction` turns back from the last direction seen.
pub open spec fn turns(last_direction: Option<i32>, direction: i32) -> bool {
    direction != 0 && last_direction is Some && last_direction != Some(direction)
}

impl ShakeCounter {
    /// Counts a change of direction, then forgets the count when the last
    /// change lies too long ago.
    fn observe(&mut self, direction: i32, now_nanos: u64, limit_ms: u64, forget_direction: bool)
        requires
            turns(old(self).last_direction, direction) ==> old(self).count < u32::MAX,
        ensures
            ({
                let turned = turns(old(self).last_direction, direction);
                let count = if turned {
                    old(self).count + 1
                } else {
                    old(self).count as int
                };
                let shake_time = if turned {
                    now_nanos
                } else {
                    old(self).last_shake_nanos
                };
                let seen = if direction != 0 {
                    Some(direction)
                } else {
                    old(self).last_direction
                };
                let expired = timed_out(shake_time, now_nanos, limit_ms);
                &&& final(self).last_shake_nanos == shake_time
                &&& final(self).count == if expired {
                    0
                } else {
                    count
                }
                &&& final(self).last_direction == if expired && forget_direction {
                    None
                } else {
                    seen
                }
            }),
    {
        if direction != 0 {
            match self.last_direction {
                Some(last) => {
                    if last != direction {
                        self.count = self.count + 1;
                        self.last_shake_nanos = now_nanos;
                    }
                },
                None => {},
            }
            self.last_direction = Some(direction);
        }
        if elapsed_exceeds(self.last_shake_nanos, now_nanos, limit_ms) {
            self.count = 0;
            if forget_direction {
                self.last_direction = None;
            }
        }
    }
}

/// The mathematical value of a shake monitor.
pub struct ShakeMonitorView {
    pub active_drop: Option<Seq<char>>,
    pub last_x: i32,
    pub shake_count: u32,
    pub last_direction: Option<i32>,
    pub last_shake_nanos: u64,
    pub drag_active: bool,
    pub last_change_count: i64,
}

/// Recognises a shake from the cursor's horizontal position while the mouse
/// button is held (the Windows monitor).
#[derive(Debug)]
pub struct ShakeMonitor {
    active_drop: Option<String>,
    last_x: i32,
    counter: ShakeCounter,
}

/// The view of an optional owned string.
pub open spec fn opt_view(s: Option<String>) -> Option<Seq<char>> {
    match s {
        Some(v) => Some(v@),
        None => None,
    }
}

impl View for ShakeMonitor {
    type V = ShakeMonitorView;

    closed spec fn view(&self) -> ShakeMonitorView {
        ShakeMonitorView {
            active_drop: opt_view(self.active_drop),
            last_x: self.last_x,
            shake_count: self.counter.count,
            last_direction: self.counter.last_direction,
            last_shake_nanos: self.counter.last_shake_nanos,
            drag_active: false,
            last_change_count: 0,
        }
    }
}

/// The state of a monitor after the counter has seen a move in `direction`
/// at `now`: the count, the last shake time and the last direction.
pub open spec fn counted(v: ShakeMonitorView, direction: i32, now: u64, limit_ms: u64, forget_direction: bool) -> ShakeMonitorView {
    let turned = turns(v.last_direction, direction);
    let count = if turned {
        (v.shake_count + 1) as u32
    } else {
        v.shake_count
    };
    let shake_time = if turned {
        now
    } else {
        v.last_shake_nanos
    };
    let seen = if direction != 0 {
        Some(direction)
    } else {
        v.last_direction
    };
    let expired = timed_out(shake_time, now, limit_ms);
    ShakeMonitorView {
        shake_count: if expired {
            0
        } else {
            count
        },
        last_direction: if expired && forget_direction {
            None
        } else {
            seen
        },
        last_shake_nanos: shake_time,
        ..v
    }
}

/// A counted state holding enough shakes opens a Drop unless one is open
/// already; opening one starts the count afresh.
pub open spec fn opens_drop(v: ShakeMonitorView, required_shakes: u32) -> bool {
    v.shake_count >= required_shakes && v.active_drop is None
}

/// While a Drop that a shake opened is still held, no further shake opens
/// another one, however the cursor moves.
pub proof fn lemma_one_drop_per_drag(v: ShakeMonitorView, direction: i32, now: u64, limit_ms: u64, forget: bool, required_shakes: u32)
    requires
        v.active_drop is Some,
    ensures
        !opens_drop(counted(v, direction, now, limit_ms, forget), required_shakes),
{
}

/// A counted sample never touches the Drop a shake opened.
pub proof fn lemma_counting_keeps_the_open_drop(v: ShakeMonitorView, direction: i32, now: u64, limit_ms: u64, forget: bool)
    ensures
        counted(v, direction, now, limit_ms, forget).active_drop == v.active_drop,
        counted(v, direction, now, limit_ms, forget).drag_active == v.drag_active,
{
}

/// The limits a shake is recognised with.
pub struct ShakeSettings {
    pub required_shakes: u32,
    pub time_limit_ms: u64,
    pub threshold: i32,
}

/// What a sample asks of the platform code, with the Drop id as its view.
pub enum ShakeEvent {
    Wait,
    OpenDrop,
    CloseAfterRelease(Seq<char>),
}

/// The event of an action.
pub open spec fn event_of(action: ShakeAction) -> ShakeEvent {
    match action {
        ShakeAction::Wait => ShakeEvent::Wait,
        ShakeAction::OpenDrop => ShakeEvent::OpenDrop,
        ShakeAction::CloseAfterRelease(id) => ShakeEvent::CloseAfterRelease(id@),
    }
}

/// One sample of the Windows monitor and what the platform did with it: the
/// cursor at `x`, whether the button is held, the time, the name of the
/// process in the foreground and the blacklist in force, and the Drop id the
/// platform records when it opened one in answer to an `OpenDrop`.
pub struct ShakePoll {
    pub x: i32,
    pub mouse_down: bool,
    pub now_nanos: u64,
    pub process: Seq<char>,
    pub blacklist: Seq<String>,
    pub opened: Option<Seq<char>>,
}

/// The sample asks for a Drop, and the process in the foreground is not
/// blacklisted: the platform opens one.
pub open spec fn allows_drop(e: ShakeEvent, p: ShakePoll) -> bool {
    e == ShakeEvent::OpenDrop && !blacklisted(p.process, p.blacklist)
}

/// Whether the platform opens a Drop after `action`: a shake asked for one
/// and the process in the foreground is not blacklisted.
pub fn should_open(action: &ShakeAction, active_process: &str, blacklist: &[String]) -> (open: bool)
    ensures
        open == (event_of(*action) == ShakeEvent::OpenDrop && !blacklisted(active_process@, blacklist@)),
{
    match action {
        ShakeAction::OpenDrop => !is_process_blacklisted(active_process, blacklist),
        _ => false,
    }
}

/// The monitor and the event after one sample, as `ShakeMonitor::step` takes it.
pub open spec fn stepped(v: ShakeMonitorView, x: i32, mouse_down: bool, now: u64, s: ShakeSettings) -> (ShakeMonitorView, ShakeEvent) {
    if !mouse_down {
        (
            ShakeMonitorView { active_drop: None, last_x: x, shake_count: 0, last_direction: None, ..v },
            match v.active_drop {
                Some(id) => ShakeEvent::CloseAfterRelease(id),
                None => ShakeEvent::Wait,
            },
        )
    } else {
        let c = counted(v, direction_of(x - v.last_x, s.threshold as int), now, s.time_limit_ms, false);
        if opens_drop(c, s.required_shakes) {
            (ShakeMonitorView { shake_count: 0, last_direction: None, last_x: x, ..c }, ShakeEvent::OpenDrop)
        } else {
            (ShakeMonitorView { last_x: x, ..c }, ShakeEvent::Wait)
        }
    }
}

/// One sample followed by recording the Drop the platform opened, if any: it
/// opens one only when the sample asks for it and the process in the
/// foreground is not blacklisted.
#[verifier::opaque]
pub open spec fn polled(v: ShakeMonitorView, p: ShakePoll, s: ShakeSettings) -> (ShakeMonitorView, ShakeEvent) {
    let (w, e) = stepped(v, p.x, p.mouse_down, p.now_nanos, s);
    if allows_drop(e, p) && p.opened is Some {
        (ShakeMonitorView { active_drop: p.opened, ..w }, e)
    } else {
        (w, e)
    }
}

/// The monitor before each sample of a run starting at `v`, and after the last.
pub open spec fn run_states(v: ShakeMonitorView, polls: Seq<ShakePoll>, s: ShakeSettings) -> Seq<ShakeMonitorView>
    decreases polls.len(),
{
    if polls.len() == 0 {
        seq![v]
    } else {
        let prior = run_states(v, polls.drop_last(), s);
        prior.push(polled(prior.last(), polls.last(), s).0)
    }
}

/// The event of each sample of a run starting at `v`.
pub open spec fn run_events(v: ShakeMonitorView, polls: Seq<ShakePoll>, s: ShakeSettings) -> Seq<ShakeEvent> {
    Seq::new(polls.len(), |i: int| polled(run_states(v, polls, s)[i], polls[i], s).1)
}

/// The sample `p` taken in state `st` turns the cursor's horizontal direction
/// back while the button is held.
pub open spec fn reverses(st: ShakeMonitorView, p: ShakePoll, s: ShakeSettings) -> bool {
    p.mouse_down && turns(st.last_direction, direction_of(p.x - st.last_x, s.threshold as int))
}

/// How many of the samples `k..i` of a run reverse the direction.
pub open spec fn reversals(states: Seq<ShakeMonitorView>, polls: Seq<ShakePoll>, s: ShakeSettings, k: int, i: int) -> nat
    decreases i - k,
{
    if i <= k {
        0
    } else {
        reversals(states, polls, s, k, i - 1) + if reverses(states[i - 1], polls[i - 1], s) {
            1nat
        } else {
            0nat
        }
    }
}

/// The button is held during every sample of `k..i`.
pub open spec fn held(polls: Seq<ShakePoll>, k: int, i: int) -> bool {
    forall|j: int| k <= j < i ==> (#[trigger] polls[j]).mouse_down
}

/// Every sample of the run meets what `ShakeMonitor::step` requires: a
/// counted reversal never takes the count past `u32::MAX`.
pub open spec fn run_admitted(v: ShakeMonitorView, polls: Seq<ShakePoll>, s: ShakeSettings) -> bool {
    forall|i: int| 0 <= i < polls.len() && #[trigger] reverses(run_states(v, polls, s)[i], polls[i], s)
        ==> run_states(v, polls, s)[i].shake_count < u32::MAX
}

proof fn lemma_run_states(v: ShakeMonitorView, polls: Seq<ShakePoll>, s: ShakeSettings)
    ensures
        run_states(v, polls, s).len() == polls.len() + 1,
        run_states(v, polls, s)[0] == v,
        forall|i: int| 0 <= i < polls.len() ==> run_states(v, polls, s)[i + 1] == polled(
            run_states(v, polls, s)[i],
            #[trigger] polls[i],
            s,
        ).0,
    decreases polls.len(),
{
    if polls.len() > 0 {
        let rest = polls.drop_last();
        lemma_run_states(v, rest, s);
        let states = run_states(v, polls, s);
        let prior = run_states(v, rest, s);
        assert forall|i: int| 0 <= i < polls.len() implies states[i + 1] == polled(states[i], #[trigger] polls[i], s).0 by {
            if i < polls.len() - 1 {
                assert(states[i] == prior[i]);
                assert(states[i + 1] == prior[i + 1]);
                assert(rest[i] == polls[i]);
            } else {
                assert(states[i] == prior.last());
            }
        }
    }
}

/// One sample: a count that is not zero afterwards came with the button held,
/// and grew by at most the reversal of that sample.
proof fn lemma_poll_count(st: ShakeMonitorView, p: ShakePoll, s: ShakeSettings)
    requires
        reverses(st, p, s) ==> st.shake_count < u32::MAX,
    ensures
        ({
            let (w, e) = polled(st, p, s);
            &&& w.shake_count > 0 ==> p.mouse_down
            &&& w.shake_count <= st.shake_count + if reverses(st, p, s) { 1int } else { 0int }
            &&& e == ShakeEvent::OpenDrop ==> p.mouse_down && st.active_drop is None
                && st.shake_count + (if reverses(st, p, s) { 1int } else { 0int }) >= s.required_shakes
        }),
{
    reveal(polled);
}

proof fn lemma_reversals_step(states: Seq<ShakeMonitorView>, polls: Seq<ShakePoll>, s: ShakeSettings, k: int, i: int)
    requires
        k <= i,
    ensures
        reversals(states, polls, s, k, i + 1) == reversals(states, polls, s, k, i) + if reverses(states[i], polls[i], s) {
            1nat
        } else {
            0nat
        },
{
}

/// The count of a monitor is backed by reversals of the current press: some
/// stretch `k..i` of samples, all with the button held, reverses the
/// direction at least that often.
proof fn lemma_count_backed_by_reversals(v: ShakeMonitorView, polls: Seq<ShakePoll>, s: ShakeSettings, i: int)
    requires
        v.shake_count == 0,
        run_admitted(v, polls, s),
        0 <= i <= polls.len(),
    ensures
        exists|k: int| 0 <= k <= i && held(polls, k, i) && reversals(run_states(v, polls, s), polls, s, k, i)
            >= #[trigger] run_states(v, polls, s)[i].shake_count,
    decreases i,
{
    lemma_run_states(v, polls, s);
    let states = run_states(v, polls, s);
    if i == 0 {
        assert(held(polls, 0, 0));
        assert(reversals(states, polls, s, 0, 0) >= states[0].shake_count);
    } else {
        lemma_count_backed_by_reversals(v, polls, s, i - 1);
        let j = i - 1;
        let k = choose|k: int| 0 <= k <= j && held(polls, k, j) && reversals(states, polls, s, k, j)
            >= #[trigger] states[j].shake_count;
        assert(states[i] == polled(states[j], polls[j], s).0);
        lemma_poll_count(states[j], polls[j], s);
        if states[i].shake_count == 0 {
            assert(held(polls, i, i));
            assert(reversals(states, polls, s, i, i) >= states[i].shake_count);
        } else {
            assert(held(polls, k, i));
            lemma_reversals_step(states, polls, s, k, j);
        }
    }
}

/// In a run that starts with no counted shake, a Drop opens only at a sample
/// with the button held, while no Drop that a shake opened is held, and after
/// the current press has reversed the cursor's direction at least the
/// required number of times.
pub proof fn lemma_drop_opens_only_after_enough_reversals(v: ShakeMonitorView, polls: Seq<ShakePoll>, s: ShakeSettings, i: int)
    requires
        v.shake_count == 0,
        run_admitted(v, polls, s),
        0 <= i < polls.len(),
        run_events(v, polls, s)[i] == ShakeEvent::OpenDrop,
    ensures
        polls[i].mouse_down,
        run_states(v, polls, s)[i].active_drop is None,
        exists|k: int| 0 <= k <= i && held(polls, k, i + 1) && #[trigger] reversals(run_states(v, polls, s), polls, s, k, i + 1)
            >= s.required_shakes,
{
    lemma_run_states(v, polls, s);
    lemma_count_backed_by_reversals(v, polls, s, i);
    let states = run_states(v, polls, s);
    let k = choose|k: int| 0 <= k <= i && held(polls, k, i) && reversals(states, polls, s, k, i)
        >= #[trigger] states[i].shake_count;
    assert(run_events(v, polls, s)[i] == polled(states[i], polls[i], s).1);
    lemma_poll_count(states[i], polls[i], s);
    assert(held(polls, k, i + 1));
    lemma_reversals_step(states, polls, s, k, i);
    assert(reversals(states, polls, s, k, i + 1) >= s.required_shakes);
}

proof fn lemma_poll_gains_drop(st: ShakeMonitorView, p: ShakePoll, s: ShakeSettings)
    ensures
        st.active_drop is None && polled(st, p, s).0.active_drop is Some ==> allows_drop(polled(st, p, s).1, p)
            && polled(st, p, s).0.active_drop == p.opened,
{
    reveal(polled);
}

/// In a run that starts with no counted shake, a Drop comes to be held only
/// at a sample where none was held, the button is held, the current press
/// has reversed the cursor's direction at least the required number of
/// times, and the process in the foreground is not blacklisted; the Drop
/// held is the one the platform opened there.
pub proof fn lemma_drop_held_only_after_allowed_shake(v: ShakeMonitorView, polls: Seq<ShakePoll>, s: ShakeSettings, i: int)
    requires
        v.shake_count == 0,
        run_admitted(v, polls, s),
        0 <= i < polls.len(),
        run_states(v, polls, s)[i].active_drop is None,
        run_states(v, polls, s)[i + 1].active_drop is Some,
    ensures
        run_events(v, polls, s)[i] == ShakeEvent::OpenDrop,
        !blacklisted(polls[i].process, polls[i].blacklist),
        run_states(v, polls, s)[i + 1].active_drop == polls[i].opened,
        polls[i].mouse_down,
        exists|k: int| 0 <= k <= i && held(polls, k, i + 1) && #[trigger] reversals(run_states(v, polls, s), polls, s, k, i + 1)
            >= s.required_shakes,
{
    lemma_run_states(v, polls, s);
    let states = run_states(v, polls, s);
    assert(states[i + 1] == polled(states[i], polls[i], s).0);
    assert(run_events(v, polls, s)[i] == polled(states[i], polls[i], s).1);
    lemma_poll_gains_drop(states[i], polls[i], s);
    lemma_drop_opens_only_after_enough_reversals(v, polls, s, i);
}

proof fn lemma_poll_with_drop_held(st: ShakeMonitorView, p: ShakePoll, s: ShakeSettings, id: Seq<char>)
    ensures
        allows_drop(polled(st, p, s).1, p) && p.opened == Some(id) ==> polled(st, p, s).0.active_drop == Some(id),
        st.active_drop == Some(id) && p.mouse_down ==> polled(st, p, s).0.active_drop == Some(id)
            && polled(st, p, s).1 == ShakeEvent::Wait,
        st.active_drop == Some(id) && !p.mouse_down ==> polled(st, p, s).0.active_drop is None
            && polled(st, p, s).1 == ShakeEvent::CloseAfterRelease(id),
{
    reveal(polled);
    if st.active_drop is Some {
        let dir = direction_of(p.x - st.last_x, s.threshold as int);
        lemma_one_drop_per_drag(st, dir, p.now_nanos, s.time_limit_ms, false, s.required_shakes);
    }
}

proof fn lemma_drop_held_until_release(v: ShakeMonitorView, polls: Seq<ShakePoll>, s: ShakeSettings, i: int, id: Seq<char>, m: int)
    requires
        0 <= i < m < polls.len() + 1,
        allows_drop(run_events(v, polls, s)[i], polls[i]),
        polls[i].opened == Some(id),
        held(polls, i + 1, m),
    ensures
        run_states(v, polls, s)[m].active_drop == Some(id),
        forall|n: int| i < n < m ==> #[trigger] run_events(v, polls, s)[n] == ShakeEvent::Wait,
    decreases m - i,
{
    lemma_run_states(v, polls, s);
    let states = run_states(v, polls, s);
    if m == i + 1 {
        assert(run_events(v, polls, s)[i] == polled(states[i], polls[i], s).1);
        lemma_poll_with_drop_held(states[i], polls[i], s, id);
        assert(states[i + 1] == polled(states[i], polls[i], s).0);
    } else {
        lemma_drop_held_until_release(v, polls, s, i, id, m - 1);
        let j = m - 1;
        assert(polls[j].mouse_down);
        assert(states[j].active_drop == Some(id));
        lemma_poll_with_drop_held(states[j], polls[j], s, id);
        assert(states[m] == polled(states[j], polls[j], s).0);
        assert(run_events(v, polls, s)[j] == polled(states[j], polls[j], s).1);
    }
}

/// A Drop that the platform opened after a shake, the process in the
/// foreground not being blacklisted, is handed back at
/// the first release that follows, exactly once: every sample before that
/// release asks for nothing, and afterwards no Drop is held.
pub proof fn lemma_opened_drop_handed_back_once(v: ShakeMonitorView, polls: Seq<ShakePoll>, s: ShakeSettings, i: int, j: int, id: Seq<char>)
    requires
        0 <= i < j < polls.len(),
        allows_drop(run_events(v, polls, s)[i], polls[i]),
        polls[i].opened == Some(id),
        held(polls, i + 1, j),
        !polls[j].mouse_down,
    ensures
        run_events(v, polls, s)[j] == ShakeEvent::CloseAfterRelease(id),
        forall|n: int| i < n < j ==> #[trigger] run_events(v, polls, s)[n] == ShakeEvent::Wait,
        run_states(v, polls, s)[j + 1].active_drop is None,
{
    lemma_run_states(v, polls, s);
    lemma_drop_held_until_release(v, polls, s, i, id, j);
    let states = run_states(v, polls, s);
    lemma_poll_with_drop_held(states[j], polls[j], s, id);
    assert(states[j + 1] == polled(states[j], polls[j], s).0);
    assert(run_events(v, polls, s)[j] == polled(states[j], polls[j], s).1);
}

impl ShakeMonitor {
    /// A monitor that starts with the cursor at `x` at time `now_nanos`.
    pub fn new(x: i32, now_nanos: u64) -> (monitor: Self)
        ensures
            monitor@.active_drop is None,
            monitor@.last_x == x,
            monitor@.shake_count == 0,
            monitor@.last_direction is None,
            monitor@.last_shake_nanos == now_nanos,
    {
        ShakeMonitor {
            active_drop: None,
            last_x: x,
            counter: ShakeCounter { count: 0, last_direction: None, last_shake_nanos: now_nanos },
        }
    }

    /// How many changes of direction have been counted.
    pub fn shake_count(&self) -> (count: u32)
        ensures
            count == self@.shake_count,
    {
        self.counter.count
    }

    /// Records the Drop that the last `OpenDrop` opened.
    pub fn set_active_drop(&mut self, drop_id: String)
        ensures
            final(self)@ == (ShakeMonitorView { active_drop: Some(drop_id@), ..old(self)@ }),
    {
        self.active_drop = Some(drop_id);
    }

    /// Takes one sample: the cursor at `x`, whether the button is held, and
    /// the time. Releasing the button hands back the Drop a shake opened and
    /// starts the count afresh; while it is held, moves longer than the
    /// threshold are counted and enough changes of direction open a Drop.
    pub fn step(&mut self, x: i32, mouse_down: bool, now_nanos: u64, required_shakes: u32, shake_time_limit: u64, shake_threshold: i32) -> (action: ShakeAction)
        requires
            mouse_down && turns(
                old(self)@.last_direction,
                direction_of(x - old(self)@.last_x, shake_threshold as int),
            ) ==> old(self)@.shake_count < u32::MAX,
        ensures
            (final(self)@, event_of(action)) == stepped(
                old(self)@,
                x,
                mouse_down,
                now_nanos,
                (ShakeSettings { required_shakes, time_limit_ms: shake_time_limit, threshold: shake_threshold }),
            ),
    {
        if !mouse_down {
            let action = match self.active_drop.take() {
                Some(id) => ShakeAction::CloseAfterRelease(id),
                None => ShakeAction::Wait,
            };
            self.counter.count = 0;
            self.counter.last_direction = None;
            self.last_x = x;
            return action;
        }
        let direction = shake_direction(x as i64 - self.last_x as i64, shake_threshold);
        self.counter.observe(direction, now_nanos, shake_time_limit, false);
        let mut action = ShakeAction::Wait;
        if self.counter.count >= required_shakes && self.active_drop.is_none() {
            action = ShakeAction::OpenDrop;
            self.counter.count = 0;
            self.counter.last_direction = None;
        }
        self.last_x = x;
        action
    }
}

/// Recognises a shake while the system drag pasteboard holds files (the
/// macOS monitor). The platform code turns each cursor move into a direction.
#[derive(Debug)]
pub struct PasteboardShakeMonitor {
    active_drop: Option<String>,
    drag_active: bool,
    last_change_count: i64,
    counter: ShakeCounter,
}

impl View for PasteboardShakeMonitor {
    type V = ShakeMonitorView;

    closed spec fn view(&self) -> ShakeMonitorView {
        ShakeMonitorView {
            active_drop: opt_view(self.active_drop),
            last_x: 0,
            shake_count: self.counter.count,
            last_direction: self.counter.last_direction,
            last_shake_nanos: self.counter.last_shake_nanos,
            drag_active: self.drag_active,
            last_change_count: self.last_change_count,
        }
    }
}

impl PasteboardShakeMonitor {
    /// A monitor that starts outside a drag, having seen the pasteboard's
    /// change count `change_count`, at time `now_nanos`.
    pub fn new(change_count: i64, now_nanos: u64) -> (monitor: Self)
        ensures
            monitor@.active_drop is None,
            !monitor@.drag_active,
            monitor@.last_change_count == change_count,
            monitor@.shake_count == 0,
            monitor@.last_direction is None,
            monitor@.last_shake_nanos == now_nanos,
    {
        PasteboardShakeMonitor {
            active_drop: None,
            drag_active: false,
            last_change_count: change_count,
            counter: ShakeCounter { count: 0, last_direction: None, last_shake_nanos: now_nanos },
        }
    }

    /// How many changes of direction have been counted.
    pub fn shake_count(&self) -> (count: u32)
        ensures
            count == self@.shake_count,
    {
        self.counter.count
    }

    /// Records the Drop that the last `OpenDrop` opened.
    pub fn set_active_drop(&mut self, drop_id: String)
        ensures
            final(self)@ == (ShakeMonitorView { active_drop: Some(drop_id@), ..old(self)@ }),
    {
        self.active_drop = Some(drop_id);
    }

    /// Takes one sample: the pasteboard's change count and whether it holds
    /// files, whether the button is held, the direction of the cursor's move
    /// and the time. A drag starts when the pasteboard changes to hold files
    /// and ends when the button is released; during a drag enough changes of
    /// direction open a Drop, and a pause longer than the limit forgets them.
    pub fn step(&mut self, change_count: i64, has_files: bool, mouse_down: bool, direction: i32, now_nanos: u64, required_shakes: u32, shake_time_limit: u64) -> (action: ShakeAction)
        requires
            old(self)@.drag_active || (change_count != old(self)@.last_change_count && change_count > 0 && has_files)
                ==> (mouse_down && turns(old(self)@.last_direction, direction) ==> old(self)@.shake_count < u32::MAX),
        ensures
            ({
                let starts = !old(self)@.drag_active && change_count != old(self)@.last_change_count
                    && change_count > 0 && has_files;
                let active = old(self)@.drag_active || starts;
                let v = if starts {
                    ShakeMonitorView {
                        drag_active: true,
                        last_change_count: change_count,
                        last_shake_nanos: now_nanos,
                        ..old(self)@
                    }
                } else {
                    old(self)@
                };
                let c = counted(v, direction, now_nanos, shake_time_limit, true);
                let open = opens_drop(c, required_shakes);
                &&& active && !mouse_down ==> hands_back(action, old(self)@.active_drop) && final(self)@ == (ShakeMonitorView {
                    active_drop: None,
                    drag_active: false,
                    shake_count: 0,
                    last_direction: None,
                    last_change_count: change_count,
                    ..v
                })
                &&& active && mouse_down ==> action == (if open {
                    ShakeAction::OpenDrop
                } else {
                    ShakeAction::Wait
                }) && final(self)@ == (if open {
                    ShakeMonitorView { shake_count: 0, last_direction: None, ..c }
                } else {
                    c
                })
                &&& !active ==> action == ShakeAction::Wait && final(self)@ == old(self)@
            }),
    {
        if !self.drag_active && change_count != self.last_change_count && change_count > 0 && has_files {
            self.drag_active = true;
            self.last_change_count = change_count;
            self.counter.last_shake_nanos = now_nanos;
        }
        if self.drag_active && !mouse_down {
            let action = match self.active_drop.take() {
                Some(id) => ShakeAction::CloseAfterRelease(id),
                None => ShakeAction::Wait,
            };
            self.drag_active = false;
            self.counter.count = 0;
            self.counter.last_direction = None;
            self.last_change_count = change_count;
            return action;
        }
        if self.drag_active {
            self.counter.observe(direction, now_nanos, shake_time_limit, true);
            if self.counter.count >= required_shakes && self.active_drop.is_none() {
                self.counter.count = 0;
                self.counter.last_direction = None;
                return ShakeAction::OpenDrop;
            }
        }
        ShakeAction::Wait
    }
}

} // verus!

//! The previously focused window: picking it from the window list that the
//! GNOME Shell `WindowsExt` extension reports, and the retry policy used to
//! give it focus back after the picker closes.
use vstd::prelude::*;

use crate::text::{find_first, find_last, chars_of, contains, contains_str, from_utf8_lossy, lower_chars, lower_text, string_of, utf8_lossy};

verus! {

/// Window id from WindowsExt (GNOME Shell extension).
#[derive(Debug, Clone, Copy)]
pub struct FocusedWindow {
    pub id: u64,
}

/// One window of the list that WindowsExt reports.
#[derive(Debug, Clone)]
pub struct WinInfo {
    pub id: u64,
    pub class: Option<String>,
    pub focus: bool,
}

/// Is this one of our own windows (class mentions `timbits`, any case)?
pub open spec fn is_timbits_spec(class: Option<Seq<char>>) -> bool {
    match class {
        Some(c) => contains(lower_text(c), "timbits"@),
        None => false,
    }
}

pub open spec fn class_view(w: WinInfo) -> Option<Seq<char>> {
    match w.class {
        Some(c) => Some(c@),
        None => None,
    }
}

pub fn is_timbits_class(class: Option<&str>) -> (r: bool)
    ensures
        r == is_timbits_spec(
            match class {
                Some(c) => Some(c@),
                None => None,
            },
        ),
{
    match class {
        Some(c) => {
            let l = lower_chars(chars_of(c).as_slice());
            contains_str(l.as_slice(), "timbits")
        },
        None => false,
    }
}

/// The window to return to: focused and not ours.
pub open spec fn is_target(w: WinInfo) -> bool {
    w.focus && !is_timbits_spec(class_view(w))
}

/// The first window to return to in the list, if any.
pub open spec fn first_target(ws: Seq<WinInfo>) -> Option<int> {
    if exists|i: int| 0 <= i < ws.len() && is_target(#[trigger] ws[i]) {
        Some(choose|i: int| 0 <= i < ws.len() && is_target(#[trigger] ws[i]) && forall|k: int| 0 <= k < i ==> !is_target(#[trigger] ws[k]))
    } else {
        None
    }
}

proof fn lemma_first_target(ws: Seq<WinInfo>, i: int)
    requires
        0 <= i < ws.len(),
        is_target(ws[i]),
        forall|k: int| 0 <= k < i ==> !is_target(#[trigger] ws[k]),
    ensures
        first_target(ws) == Some(i),
{
    let j = choose|j: int| 0 <= j < ws.len() && is_target(#[trigger] ws[j]) && forall|k: int| 0 <= k < j ==> !is_target(#[trigger] ws[k]);
    assert(is_target(ws[i]));
    if j < i {
        assert(!is_target(ws[j]));
    }
    if i < j {
        assert(!is_target(ws[i]));
    }
}

fn capture_in(ws: &Vec<WinInfo>) -> (r: Option<FocusedWindow>)
    ensures
        match first_target(ws@) {
            Some(i) => r == Some(FocusedWindow { id: ws@[i].id }),
            None => r is None,
        },
{
    for i in 0..ws.len()
        invariant
            forall|k: int| 0 <= k < i ==> !is_target(#[trigger] ws@[k]),
    {
        let w = &ws[i];
        let timbits = match &w.class {
            Some(c) => is_timbits_class(Some(c.as_str())),
            None => is_timbits_class(None),
        };
        if w.focus && !timbits {
            assert(is_target(ws@[i as int]));
            proof {
                lemma_first_target(ws@, i as int);
            }
            return Some(FocusedWindow { id: w.id });
        }
    }
    None
}

/// Snapshot the focused window from the window list (call *before* the
/// picker maps): the first focused window that is not ours. `None` when the
/// list is unavailable or has no such window.
pub fn capture_focused(wins: Option<Vec<WinInfo>>) -> (r: Option<FocusedWindow>)
    ensures
        match wins {
            None => r is None,
            Some(ws) => match first_target(ws@) {
                Some(i) => r == Some(FocusedWindow { id: ws@[i].id }),
                None => r is None,
            },
        },
{
    match wins {
        Some(ws) => capture_in(&ws),
        None => None,
    }
}

/// Does some window of the list with this id have focus?
pub open spec fn has_focus_in(ws: Seq<WinInfo>, id: u64) -> bool {
    exists|i: int| 0 <= i < ws.len() && (#[trigger] ws[i]).id == id && ws[i].focus
}

fn has_focus_exec(ws: &Vec<WinInfo>, id: u64) -> (r: bool)
    ensures
        r == has_focus_in(ws@, id),
{
    for i in 0..ws.len()
        invariant
            forall|k: int| 0 <= k < i ==> !((#[trigger] ws@[k]).id == id && ws@[k].focus),
    {
        if ws[i].id == id && ws[i].focus {
            assert(ws@[i as int].id == id && ws@[i as int].focus);
            return true;
        }
    }
    false
}

/// Does window `id` have focus, according to the list (false without one)?
pub fn window_has_focus(wins: Option<&Vec<WinInfo>>, id: u64) -> (r: bool)
    ensures
        r == match wins {
            Some(ws) => has_focus_in(ws@, id),
            None => false,
        },
{
    match wins {
        None => false,
        Some(ws) => has_focus_exec(ws, id),
    }
}

// ───────────────────────── the window list ─────────────────────────

/// Every occurrence of `pat` replaced by `rep`, scanning left to right
/// (`str::replace`).
pub open spec fn replace_all(s: Seq<char>, pat: Seq<char>, rep: Seq<char>) -> Seq<char>
    decreases s.len(),
{
    if s.len() == 0 || pat.len() == 0 {
        s
    } else if s.len() >= pat.len() && s.take(pat.len() as int) == pat {
        rep + replace_all(s.skip(pat.len() as int), pat, rep)
    } else {
        seq![s[0]] + replace_all(s.skip(1), pat, rep)
    }
}

pub fn replace_all_exec(s: &[char], pat: &[char], rep: &[char]) -> (r: Vec<char>)
    ensures
        r@ == replace_all(s@, pat@, rep@),
{
    if pat.len() == 0 {
        return crate::text::copy_all(s);
    }
    let mut out: Vec<char> = Vec::new();
    let mut i: usize = 0;
    assert(s@.skip(0) == s@);
    while i < s.len()
        invariant
            pat@.len() > 0,
            i <= s@.len(),
            out@ + replace_all(s@.skip(i as int), pat@, rep@) == replace_all(s@, pat@, rep@),
        decreases s@.len() - i,
    {
        let ghost rest = s@.skip(i as int);
        if crate::text::matches_at_exec(s, pat, i) {
            assert(rest.take(pat@.len() as int) =~= pat@);
            assert(rest.skip(pat@.len() as int) == s@.skip(i + pat@.len()));
            let ghost before = out@;
            crate::text::append(&mut out, rep);
            assert(out@ + replace_all(s@.skip(i + pat@.len()), pat@, rep@) == before + replace_all(
                rest,
                pat@,
                rep@,
            ));
            i = i + pat.len();
        } else {
            assert(!(rest.len() >= pat@.len() && rest.take(pat@.len() as int) == pat@)) by {
                if rest.len() >= pat@.len() && rest.take(pat@.len() as int) == pat@ {
                    assert(s@.subrange(i as int, i + pat@.len()) =~= rest.take(pat@.len() as int));
                    assert(crate::text::matches_at(s@, pat@, i as int));
                }
            }
            assert(rest.skip(1) == s@.skip(i + 1));
            let ghost before = out@;
            out.push(s[i]);
            assert(out@ + replace_all(s@.skip(i + 1), pat@, rep@) == before + replace_all(
                rest,
                pat@,
                rep@,
            ));
            i = i + 1;
        }
    }
    assert(out@ + replace_all(s@.skip(i as int), pat@, rep@) == out@ + Seq::<char>::empty());
    out
}

/// The JSON array inside what `gdbus call … WindowsExt.List` printed: from
/// the first `[` to the last `]`, with the escaped quotes and backslashes of
/// the GVariant string undone. `None` without such a span.
pub open spec fn window_json_spec(out: Seq<char>) -> Option<Seq<char>> {
    match (find_first(out, '[', 0), find_last(out, ']', out.len() as int)) {
        (Some(a), Some(b)) => if b < a {
            None
        } else {
            Some(
                replace_all(
                    replace_all(out.subrange(a, b + 1), "\\\""@, "\""@),
                    "\\\\"@,
                    "\\"@,
                ),
            )
        },
        _ => None,
    }
}

/// The window-list JSON in the output of the `WindowsExt.List` call.
pub fn window_list_json(stdout: &[u8]) -> (r: Option<String>)
    ensures
        match r {
            Some(j) => window_json_spec(utf8_lossy(stdout@)) == Some(j@),
            None => window_json_spec(utf8_lossy(stdout@)) is None,
        },
{
    let raw = from_utf8_lossy(stdout);
    let v = chars_of(raw.as_str());
    let ghost out = v@;
    let mut start: usize = 0;
    while start < v.len() && v[start] != '['
        invariant
            start <= v@.len(),
            find_first(v@, '[', 0) == find_first(v@, '[', start as int),
        decreases v@.len() - start,
    {
        start = start + 1;
    }
    if start == v.len() {
        return None;
    }
    let mut end: usize = v.len();
    while end > 0 && v[end - 1] != ']'
        invariant
            end <= v@.len(),
            find_last(v@, ']', v@.len() as int) == find_last(v@, ']', end as int),
        decreases end,
    {
        end = end - 1;
    }
    if end == 0 {
        return None;
    }
    let last = end - 1;
    if last < start {
        return None;
    }
    let span = crate::text::copy_range(v.as_slice(), start, last + 1);
    let a = replace_all_exec(span.as_slice(), chars_of("\\\"").as_slice(), chars_of("\"").as_slice());
    let b = replace_all_exec(a.as_slice(), chars_of("\\\\").as_slice(), chars_of("\\").as_slice());
    Some(string_of(b.as_slice()))
}

// ───────────────────────── giving focus back ─────────────────────────

/// How many times focus is requested before giving up.
pub const RESTORE_ATTEMPTS: u64 = 4;

/// What came of one attempt to give focus back.
#[derive(Debug, Clone, Copy, PartialEq, Eq, Structural)]
pub enum AttemptOutcome {
    /// The activation call failed.
    ActivateFailed,
    /// Activated, but the window does not report focus.
    NotFocused,
    /// The window has focus.
    Focused,
}

/// What to do after an attempt.
#[derive(Debug, Clone, Copy, PartialEq, Eq, Structural)]
pub enum RestoreStep {
    /// Wait `wait_ms`, then make attempt `next`.
    Retry { next: u64, wait_ms: u64 },
    /// Wait `settle_ms` so the text field really has keyboard focus; done.
    Succeed { settle_ms: u64 },
    /// Wait `wait_ms` (after a failed activation), then give up.
    Fail { wait_ms: u64 },
}

/// How long to wait after activating, before checking focus, on attempt
/// `attempt` (counting from 1).
pub fn focus_wait_ms(attempt: u64) -> (r: u64)
    requires
        attempt <= RESTORE_ATTEMPTS,
    ensures
        r == 100 + attempt * 40,
{
    100 + attempt * 40
}

pub open spec fn restore_step_spec(attempt: u64, outcome: AttemptOutcome) -> RestoreStep {
    match outcome {
        AttemptOutcome::Focused => RestoreStep::Succeed { settle_ms: 120 },
        _ => {
            let wait_ms: u64 = if outcome == AttemptOutcome::ActivateFailed {
                80
            } else {
                0
            };
            if attempt >= RESTORE_ATTEMPTS {
                RestoreStep::Fail { wait_ms }
            } else {
                RestoreStep::Retry { next: (attempt + 1) as u64, wait_ms }
            }
        },
    }
}

/// The decision after attempt `attempt` (from 1 to [`RESTORE_ATTEMPTS`]).
pub fn restore_step(attempt: u64, outcome: AttemptOutcome) -> (r: RestoreStep)
    requires
        1 <= attempt <= RESTORE_ATTEMPTS,
    ensures
        r == restore_step_spec(attempt, outcome),
{
    match outcome {
        AttemptOutcome::Focused => RestoreStep::Succeed { settle_ms: 120 },
        _ => {
            let wait_ms: u64 = if outcome == AttemptOutcome::ActivateFailed {
                80
            } else {
                0
            };
            if attempt >= RESTORE_ATTEMPTS {
                RestoreStep::Fail { wait_ms }
            } else {
                RestoreStep::Retry { next: attempt + 1, wait_ms }
            }
        },
    }
}

/// Restoring focus ends: every retry moves to the next attempt and none goes
/// past the last, so at most [`RESTORE_ATTEMPTS`] attempts are made.
pub proof fn restore_attempts_bounded(attempt: u64, outcome: AttemptOutcome)
    requires
        1 <= attempt <= RESTORE_ATTEMPTS,
    ensures
        restore_step_spec(attempt, outcome) matches RestoreStep::Retry { next, .. } ==> next == attempt
            + 1 && next <= RESTORE_ATTEMPTS,
{
}

/// Following the restore steps from attempt `attempt` on, where attempt `k`
/// comes out as `outcomes[k - 1]`: whether focus came back, and the number
/// of the last attempt made.
pub open spec fn restore_run(outcomes: Seq<AttemptOutcome>, attempt: int) -> (bool, int)
    decreases RESTORE_ATTEMPTS + 1 - attempt,
{
    if attempt < 1 || attempt > RESTORE_ATTEMPTS || attempt > outcomes.len() {
        (false, attempt - 1)
    } else {
        match restore_step_spec(attempt as u64, outcomes[attempt - 1]) {
            RestoreStep::Succeed { .. } => (true, attempt),
            RestoreStep::Fail { .. } => (false, attempt),
            RestoreStep::Retry { next, .. } => if next as int == attempt + 1 {
                restore_run(outcomes, attempt + 1)
            } else {
                (false, attempt)
            },
        }
    }
}

proof fn lemma_restore_run(outcomes: Seq<AttemptOutcome>, k: int)
    requires
        1 <= k <= RESTORE_ATTEMPTS,
        outcomes.len() >= RESTORE_ATTEMPTS,
    ensures
        k <= restore_run(outcomes, k).1 <= RESTORE_ATTEMPTS,
        restore_run(outcomes, k).0 <==> exists|i: int| k - 1 <= i < RESTORE_ATTEMPTS && outcomes[i] == AttemptOutcome::Focused,
        restore_run(outcomes, k).0 ==> outcomes[restore_run(outcomes, k).1 - 1] == AttemptOutcome::Focused,
        forall|i: int| k - 1 <= i < restore_run(outcomes, k).1 - 1 ==> outcomes[i] != AttemptOutcome::Focused,
        !restore_run(outcomes, k).0 ==> restore_run(outcomes, k).1 == RESTORE_ATTEMPTS,
    decreases RESTORE_ATTEMPTS + 1 - k,
{
    if outcomes[k - 1] != AttemptOutcome::Focused && k < RESTORE_ATTEMPTS {
        lemma_restore_run(outcomes, k + 1);
        assert forall|i: int| k - 1 <= i < RESTORE_ATTEMPTS && outcomes[i] == AttemptOutcome::Focused implies
            k <= i by {}
    }
}

/// Restoring focus makes at most [`RESTORE_ATTEMPTS`] attempts; it succeeds
/// exactly when one of them finds the window focused, and it stops at the
/// first such attempt.
pub proof fn restore_run_law(outcomes: Seq<AttemptOutcome>)
    requires
        outcomes.len() >= RESTORE_ATTEMPTS,
    ensures
        1 <= restore_run(outcomes, 1).1 <= RESTORE_ATTEMPTS,
        restore_run(outcomes, 1).0 <==> exists|i: int| 0 <= i < RESTORE_ATTEMPTS && outcomes[i] == AttemptOutcome::Focused,
        restore_run(outcomes, 1).0 ==> outcomes[restore_run(outcomes, 1).1 - 1] == AttemptOutcome::Focused,
        forall|i: int| 0 <= i < restore_run(outcomes, 1).1 - 1 ==> outcomes[i] != AttemptOutcome::Focused,
        !restore_run(outcomes, 1).0 ==> restore_run(outcomes, 1).1 == RESTORE_ATTEMPTS,
{
    lemma_restore_run(outcomes, 1);
}

} // verus!

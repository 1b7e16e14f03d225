//! The in-memory cycle state and its threshold rules.
//!
//! A [`CycleAppState`] holds the active billing window, the usage counted
//! against it, the traffic limit, and the notification rules sorted by
//! falling percentage. The combined usage is always recomputed from the
//! uplink and downlink counters through the statistic method, never stored
//! independently; a rule, once fired, stays fired for the rest of the cycle.

use vstd::prelude::*;
use vstd::multiset::Multiset;
use crate::config::Config;
use crate::cycle::{is_cycle_window, CycleType};
use crate::date::{day_index, valid_date, Date};

verus! {

/// How uplink and downlink usage combine into the number compared against
/// the limit.
#[derive(Clone, Copy, PartialEq, Eq, Structural, Debug)]
pub enum CycleStatisticMethod {
    /// Uplink plus downlink.
    SumInOut,
    /// The larger of uplink and downlink.
    MaxInOut,
    /// Uplink only.
    OnlyOut,
}

/// The combined usage under a statistic method.
pub open spec fn combine_usage(m: CycleStatisticMethod, up: int, down: int) -> int {
    match m {
        CycleStatisticMethod::SumInOut => up + down,
        CycleStatisticMethod::MaxInOut => if up >= down {
            up
        } else {
            down
        },
        CycleStatisticMethod::OnlyOut => up,
    }
}

impl CycleStatisticMethod {
    /// Combines uplink and downlink usage into one comparable quantity.
    pub fn combine(&self, up: u64, down: u64) -> (r: u64)
        requires
            combine_usage(*self, up as int, down as int) <= u64::MAX,
        ensures
            r == combine_usage(*self, up as int, down as int),
    {
        match self {
            CycleStatisticMethod::SumInOut => up + down,
            CycleStatisticMethod::MaxInOut => if up >= down {
                up
            } else {
                down
            },
            CycleStatisticMethod::OnlyOut => up,
        }
    }
}

/// One notification rule of the running cycle.
#[derive(Clone, Debug)]
pub struct CycleNotifyAppState {
    pub percent: u8,
    pub finished: bool,
    pub command: Option<String>,
}

/// An optional command, seen as its character sequence.
pub open spec fn opt_str_view(o: Option<String>) -> Option<Seq<char>> {
    match o {
        Some(s) => Some(s@),
        None => None,
    }
}

/// A rule as plain values: percentage, fired flag and command text.
pub open spec fn rule_view(r: CycleNotifyAppState) -> (u8, bool, Option<Seq<char>>) {
    (r.percent, r.finished, opt_str_view(r.command))
}

/// A rule list as plain values, element by element.
pub open spec fn rule_views(s: Seq<CycleNotifyAppState>) -> Seq<(u8, bool, Option<Seq<char>>)> {
    Seq::new(s.len(), |i: int| rule_view(s[i]))
}

/// The rules are ordered by falling percentage.
pub open spec fn sorted_desc(s: Seq<CycleNotifyAppState>) -> bool {
    forall|i: int, j: int| 0 <= i <= j < s.len() ==> #[trigger] s[i].percent >= #[trigger] s[j].percent
}

/// Usage has reached `percent` of `limit`: `usage >= limit * percent / 100`
/// in exact arithmetic.
pub open spec fn threshold_met(usage: int, limit: int, percent: int) -> bool {
    100 * usage >= limit * percent
}

/// Compares usage against a percentage of the limit, exactly.
pub fn threshold_check(usage: u64, limit: u64, percent: u8) -> (r: bool)
    ensures
        r == threshold_met(usage as int, limit as int, percent as int),
{
    proof {
        assert((limit as u128) * (percent as u128) <= 0xffff_ffff_ffff_ffffu128 * 255)
            by (nonlinear_arith)
            requires
                limit <= 0xffff_ffff_ffff_ffffu128,
                percent <= 255,
        ;
    }
    100 * (usage as u128) >= (limit as u128) * (percent as u128)
}

/// Sorts notification rules by falling percentage; the result holds exactly
/// the given rules.
pub fn sort_notify_desc(input: Vec<CycleNotifyAppState>) -> (r: Vec<CycleNotifyAppState>)
    ensures
        sorted_desc(r@),
        rule_views(r@).to_multiset() == rule_views(input@).to_multiset(),
        r@.len() == input@.len(),
{
    broadcast use vstd::seq_lib::group_to_multiset_ensures;
    broadcast use vstd::multiset::group_multiset_axioms;

    let mut rest = input;
    let mut out: Vec<CycleNotifyAppState> = Vec::new();
    proof {
        assert(rule_views(out@).to_multiset().add(rule_views(rest@).to_multiset())
            =~= rule_views(input@).to_multiset());
    }
    while rest.len() > 0
        invariant
            sorted_desc(out@),
            rule_views(out@).to_multiset().add(rule_views(rest@).to_multiset()) == rule_views(
                input@,
            ).to_multiset(),
            out@.len() + rest@.len() == input@.len(),
            forall|i: int, j: int|
                0 <= i < out@.len() && 0 <= j < rest@.len() ==> #[trigger] out@[i].percent
                    >= #[trigger] rest@[j].percent,
        decreases rest.len(),
    {
        let mut m: usize = 0;
        let mut q: usize = 1;
        while q < rest.len()
            invariant
                m < q <= rest@.len(),
                forall|t: int| 0 <= t < q ==> rest@[m as int].percent >= #[trigger] rest@[t].percent,
            decreases rest.len() - q,
        {
            if rest[q].percent > rest[m].percent {
                m = q;
            }
            q = q + 1;
        }
        let ghost old_out = out@;
        let ghost old_rest = rest@;
        let e = rest.remove(m);
        out.push(e);
        proof {
            rule_views(old_out).to_multiset_ensures();
            rule_views(old_rest).to_multiset_ensures();
            assert(out@ == old_out.push(e));
            assert(rest@ == old_rest.remove(m as int));
            assert(old_rest[m as int] == e);
            assert(rule_views(out@) =~= rule_views(old_out).push(rule_view(e)));
            assert(rule_views(rest@) =~= rule_views(old_rest).remove(m as int));
            assert(rule_views(old_rest)[m as int] == rule_view(e));
            assert(rule_views(old_rest).contains(rule_view(e)));
            assert(rule_views(old_rest).to_multiset().count(rule_view(e)) > 0);
            assert(rule_views(out@).to_multiset().add(rule_views(rest@).to_multiset())
                =~= rule_views(old_out).to_multiset().add(rule_views(old_rest).to_multiset()));
            assert forall|i: int, j: int|
                0 <= i <= j < out@.len() implies #[trigger] out@[i].percent
                >= #[trigger] out@[j].percent by {
                if j < out@.len() - 1 {
                    assert(out@[i] == old_out[i] && out@[j] == old_out[j]);
                }
            }
            assert forall|i: int, j: int|
                0 <= i < out@.len() && 0 <= j < rest@.len() implies #[trigger] out@[i].percent
                >= #[trigger] rest@[j].percent by {
                if j < m {
                    assert(rest@[j] == old_rest[j]);
                } else {
                    assert(rest@[j] == old_rest[j + 1]);
                }
            }
        }
    }
    proof {
        assert(rule_views(rest@) =~= Seq::<(u8, bool, Option<Seq<char>>)>::empty());
        assert(rule_views(rest@).to_multiset() =~= Multiset::<(u8, bool, Option<Seq<char>>)>::empty());
        assert(rule_views(out@).to_multiset().add(
            Multiset::<(u8, bool, Option<Seq<char>>)>::empty(),
        ) =~= rule_views(out@).to_multiset());
    }
    out
}

/// The running state of the active billing cycle.
#[derive(Clone, Debug)]
pub struct CycleAppState {
    pub cycle_type: CycleType,
    pub current_cycle_start_date: Date,
    pub current_cycle_end_date: Date,
    pub uplink_traffic_usage: u64,
    pub downlink_traffic_usage: u64,
    pub traffic_usage: u64,
    pub traffic_limit: u64,
    pub notify: Vec<CycleNotifyAppState>,
    pub statistic_method: CycleStatisticMethod,
}

impl CycleAppState {
    /// The state is consistent: its window is a real window of its cycle
    /// specification, the combined usage is what the statistic method gives,
    /// and the rules are sorted by falling percentage.
    pub open spec fn wf(self) -> bool {
        &&& valid_date(self.current_cycle_start_date)
        &&& valid_date(self.current_cycle_end_date)
        &&& is_cycle_window(
            self.cycle_type,
            self.current_cycle_start_date,
            self.current_cycle_end_date,
        )
        &&& self.traffic_usage == combine_usage(
            self.statistic_method,
            self.uplink_traffic_usage as int,
            self.downlink_traffic_usage as int,
        )
        &&& sorted_desc(self.notify@)
    }

    /// Whether `today` has left the cycle window, so the cycle must be
    /// derived anew before any further accounting.
    pub fn needs_rollover(&self, today: Date) -> (r: bool)
        requires
            valid_date(today),
            valid_date(self.current_cycle_end_date),
        ensures
            r == (day_index(today) > day_index(self.current_cycle_end_date)),
    {
        self.current_cycle_end_date.is_before(&today)
    }

    /// Books one usage delta: adds it to both directions and recomputes the
    /// combined usage through the statistic method.
    pub fn apply_usage(&mut self, up: u64, down: u64)
        requires
            old(self).wf(),
            old(self).uplink_traffic_usage + up <= u64::MAX,
            old(self).downlink_traffic_usage + down <= u64::MAX,
            combine_usage(
                old(self).statistic_method,
                old(self).uplink_traffic_usage + up,
                old(self).downlink_traffic_usage + down,
            ) <= u64::MAX,
        ensures
            final(self).wf(),
            final(self).uplink_traffic_usage == old(self).uplink_traffic_usage + up,
            final(self).downlink_traffic_usage == old(self).downlink_traffic_usage + down,
            final(self).traffic_usage == combine_usage(
                final(self).statistic_method,
                final(self).uplink_traffic_usage as int,
                final(self).downlink_traffic_usage as int,
            ),
            final(self).cycle_type == old(self).cycle_type,
            final(self).current_cycle_start_date == old(self).current_cycle_start_date,
            final(self).current_cycle_end_date == old(self).current_cycle_end_date,
            final(self).traffic_limit == old(self).traffic_limit,
            final(self).notify == old(self).notify,
            final(self).statistic_method == old(self).statistic_method,
    {
        self.uplink_traffic_usage = self.uplink_traffic_usage + up;
        self.downlink_traffic_usage = self.downlink_traffic_usage + down;
        self.traffic_usage = self.statistic_method.combine(
            self.uplink_traffic_usage,
            self.downlink_traffic_usage,
        );
    }

    /// Fires at most one notification rule: scanning by falling percentage,
    /// the first rule whose threshold the combined usage has reached and
    /// that has not fired yet is marked fired and returned. Rules already
    /// fired stay fired.
    pub fn fire_notification(&mut self) -> (r: Option<usize>)
        requires
            old(self).wf(),
        ensures
            final(self).wf(),
            final(self).cycle_type == old(self).cycle_type,
            final(self).current_cycle_start_date == old(self).current_cycle_start_date,
            final(self).current_cycle_end_date == old(self).current_cycle_end_date,
            final(self).uplink_traffic_usage == old(self).uplink_traffic_usage,
            final(self).downlink_traffic_usage == old(self).downlink_traffic_usage,
            final(self).traffic_usage == old(self).traffic_usage,
            final(self).traffic_limit == old(self).traffic_limit,
            final(self).statistic_method == old(self).statistic_method,
            final(self).notify@.len() == old(self).notify@.len(),
            forall|j: int|
                0 <= j < final(self).notify@.len() && old(self).notify@[j].finished
                    ==> #[trigger] final(self).notify@[j].finished,
            match r {
                Some(i) => {
                    &&& i < final(self).notify@.len()
                    &&& !old(self).notify@[i as int].finished
                    &&& final(self).notify@[i as int].finished
                    &&& threshold_met(
                        final(self).traffic_usage as int,
                        final(self).traffic_limit as int,
                        final(self).notify@[i as int].percent as int,
                    )
                    &&& final(self).notify@[i as int].percent == old(self).notify@[i as int].percent
                    &&& final(self).notify@[i as int].command == old(self).notify@[i as int].command
                    &&& forall|j: int|
                        0 <= j < final(self).notify@.len() && j != i ==> final(self).notify@[j]
                            == old(self).notify@[j]
                    &&& forall|j: int|
                        0 <= j < i ==> (#[trigger] old(self).notify@[j].finished || !threshold_met(
                            old(self).traffic_usage as int,
                            old(self).traffic_limit as int,
                            old(self).notify@[j].percent as int,
                        ))
                },
                None => {
                    &&& final(self).notify@ == old(self).notify@
                    &&& forall|j: int|
                        0 <= j < final(self).notify@.len() ==> (#[trigger] old(
                            self,
                        ).notify@[j].finished || !threshold_met(
                            old(self).traffic_usage as int,
                            old(self).traffic_limit as int,
                            old(self).notify@[j].percent as int,
                        ))
                },
            },
    {
        let mut i: usize = 0;
        while i < self.notify.len()
            invariant
                *self == *old(self),
                old(self).wf(),
                i <= self.notify@.len(),
                forall|j: int|
                    0 <= j < i ==> (#[trigger] self.notify@[j].finished || !threshold_met(
                        self.traffic_usage as int,
                        self.traffic_limit as int,
                        self.notify@[j].percent as int,
                    )),
            decreases self.notify@.len() - i,
        {
            let met = threshold_check(
                self.traffic_usage,
                self.traffic_limit,
                self.notify[i].percent,
            );
            if met && !self.notify[i].finished {
                let ghost before = self.notify@;
                let e = self.notify.remove(i);
                let fired = CycleNotifyAppState { percent: e.percent, finished: true, command: e.command };
                self.notify.insert(i, fired);
                proof {
                    assert(self.notify@ =~= before.update(
                        i as int,
                        CycleNotifyAppState { percent: e.percent, finished: true, command: e.command },
                    ));
                    assert forall|a: int, b: int|
                        0 <= a <= b < self.notify@.len() implies #[trigger] self.notify@[a].percent
                        >= #[trigger] self.notify@[b].percent by {
                        assert(before[a].percent >= before[b].percent);
                        assert(self.notify@[a].percent == before[a].percent);
                        assert(self.notify@[b].percent == before[b].percent);
                    }
                }
                return Some(i);
            }
            i = i + 1;
        }
        None
    }
}

/// What the caller must deliver after a threshold fired: the rule's
/// percentage and optional command, and the usage and limit to report.
#[derive(Clone, Debug)]
pub struct NotifyAction {
    pub percent: u8,
    pub command: Option<String>,
    pub traffic_usage: u64,
    pub traffic_limit: u64,
}

/// Copies an optional command string.
pub fn clone_opt_string(o: &Option<String>) -> (r: Option<String>)
    ensures
        opt_str_view(r) == opt_str_view(*o),
{
    match o {
        Some(s) => Some(s.clone()),
        None => None,
    }
}

/// Rule `i` fired between `pre` and `post`: it was unfired and its
/// threshold is reached, every rule before it (a higher percentage) was
/// already fired or is not reached, and no other rule changed.
pub open spec fn fired_rule_at(pre: CycleAppState, post: CycleAppState, i: int) -> bool {
    &&& 0 <= i < post.notify@.len()
    &&& !pre.notify@[i].finished
    &&& post.notify@[i].finished
    &&& threshold_met(
        post.traffic_usage as int,
        post.traffic_limit as int,
        post.notify@[i].percent as int,
    )
    &&& post.notify@[i].percent == pre.notify@[i].percent
    &&& post.notify@[i].command == pre.notify@[i].command
    &&& forall|j: int|
        0 <= j < post.notify@.len() && j != i ==> post.notify@[j] == #[trigger] pre.notify@[j]
    &&& forall|j: int|
        0 <= j < i ==> (#[trigger] pre.notify@[j].finished || !threshold_met(
            post.traffic_usage as int,
            post.traffic_limit as int,
            pre.notify@[j].percent as int,
        ))
}

/// Some rule fired and `a` reports it.
pub open spec fn action_fired(pre: CycleAppState, post: CycleAppState, a: NotifyAction) -> bool {
    exists|i: int|
        #[trigger] fired_rule_at(pre, post, i) && a.percent == post.notify@[i].percent
            && opt_str_view(a.command) == opt_str_view(post.notify@[i].command)
}

/// One accounting step from `pre` to `post`: the deltas are added, the
/// combined usage is recomputed, fired rules stay fired, and at most one
/// rule fires — the highest whose threshold the new usage reaches and that
/// had not fired yet, reported in `action`.
pub open spec fn delta_applied(
    pre: CycleAppState,
    post: CycleAppState,
    action: Option<NotifyAction>,
    up: u64,
    down: u64,
) -> bool {
    &&& post.cycle_type == pre.cycle_type
    &&& post.current_cycle_start_date == pre.current_cycle_start_date
    &&& post.current_cycle_end_date == pre.current_cycle_end_date
    &&& post.traffic_limit == pre.traffic_limit
    &&& post.statistic_method == pre.statistic_method
    &&& post.uplink_traffic_usage == pre.uplink_traffic_usage + up
    &&& post.downlink_traffic_usage == pre.downlink_traffic_usage + down
    &&& post.traffic_usage == combine_usage(
        post.statistic_method,
        post.uplink_traffic_usage as int,
        post.downlink_traffic_usage as int,
    )
    &&& post.notify@.len() == pre.notify@.len()
    &&& forall|j: int|
        0 <= j < post.notify@.len() && pre.notify@[j].finished
            ==> #[trigger] post.notify@[j].finished
    &&& match action {
        Some(a) => a.traffic_usage == post.traffic_usage && a.traffic_limit == post.traffic_limit
            && action_fired(pre, post, a),
        None => post.notify@ == pre.notify@ && forall|j: int|
            0 <= j < pre.notify@.len() ==> (#[trigger] pre.notify@[j].finished || !threshold_met(
                post.traffic_usage as int,
                post.traffic_limit as int,
                pre.notify@[j].percent as int,
            )),
    }
}

impl CycleAppState {
    /// Books one usage delta against the cycle and evaluates the threshold
    /// rules: the deltas are added, the combined usage is recomputed, and
    /// the highest not-yet-fired rule whose threshold the new usage reaches
    /// fires — at most one per call. A fired rule stays fired for the rest
    /// of the cycle.
    pub fn apply_delta(&mut self, up: u64, down: u64) -> (r: Option<NotifyAction>)
        requires
            old(self).wf(),
            old(self).uplink_traffic_usage + up <= u64::MAX,
            old(self).downlink_traffic_usage + down <= u64::MAX,
            combine_usage(
                old(self).statistic_method,
                old(self).uplink_traffic_usage + up,
                old(self).downlink_traffic_usage + down,
            ) <= u64::MAX,
        ensures
            final(self).wf(),
            delta_applied(*old(self), *final(self), r, up, down),
    {
        self.apply_usage(up, down);
        let fired = self.fire_notification();
        match fired {
            Some(i) => {
                let a = NotifyAction {
                    percent: self.notify[i].percent,
                    command: clone_opt_string(&self.notify[i].command),
                    traffic_usage: self.traffic_usage,
                    traffic_limit: self.traffic_limit,
                };
                proof {
                    assert(fired_rule_at(*old(self), *self, i as int));
                    assert(action_fired(*old(self), *self, a));
                }
                Some(a)
            },
            None => None,
        }
    }
}

/// A read-only snapshot of the configuration and the running cycle, for a
/// status endpoint.
#[derive(Clone, Debug)]
pub struct AppStateDisplay {
    pub config: Config,
    pub cycle: Option<CycleAppState>,
}

} // verus!

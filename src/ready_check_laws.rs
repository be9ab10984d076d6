//! Properties of roster updates and ready-check accounting, proved over the
//! spec functions that `SquadTracker::squad_update` is specified with.
use vstd::prelude::*;
use crate::squad_tracker::{
    after_batch, after_record, concluded, credited, is_tracked_role, participated,
    round_succeeded, SquadMemberState, UserInfo, UserRole,
    READY_CHECK_GRACE_MILLIS,
};

verus! {

/// Applying two batches one after the other is applying their concatenation.
pub proof fn lemma_after_batch_append(
    self_name: Seq<char>,
    roster: Map<Seq<char>, SquadMemberState>,
    first: Seq<UserInfo>,
    second: Seq<UserInfo>,
    now: u64,
)
    ensures
        after_batch(self_name, roster, first + second, now) == after_batch(
            self_name,
            after_batch(self_name, roster, first, now),
            second,
            now,
        ),
    decreases second.len(),
{
    if second.len() == 0 {
        assert(first + second =~= first);
    } else {
        lemma_after_batch_append(self_name, roster, first, second.drop_last(), now);
        assert((first + second).drop_last() =~= first + second.drop_last());
        assert((first + second).last() == second.last());
    }
}

/// Records that add nobody keep an empty roster empty.
proof fn lemma_untracked_records_keep_empty(
    self_name: Seq<char>,
    recs: Seq<UserInfo>,
    now: u64,
)
    requires
        forall|i: int| 0 <= i < recs.len() ==> !is_tracked_role(#[trigger] recs[i].role),
    ensures
        after_batch(self_name, Map::empty(), recs, now) == Map::<Seq<char>, SquadMemberState>::empty(),
    decreases recs.len(),
{
    if recs.len() > 0 {
        let prefix = recs.drop_last();
        assert forall|i: int| 0 <= i < prefix.len() implies !is_tracked_role(#[trigger] prefix[i].role) by {
            assert(prefix[i] == recs[i]);
        }
        lemma_untracked_records_keep_empty(self_name, prefix, now);
        assert(!is_tracked_role(recs[recs.len() - 1].role));
        let empty = Map::<Seq<char>, SquadMemberState>::empty();
        if let Some(name) = recs.last().account_name {
            assert(empty.remove(name@) =~= empty);
        }
    }
}

/// When the tracker's own account leaves the squad, the roster is empty
/// afterwards, whatever the roster and the records before the departure in
/// the same batch; records after it that add nobody leave it empty.
pub proof fn lemma_self_departure_clears_roster(
    self_name: Seq<char>,
    roster: Map<Seq<char>, SquadMemberState>,
    before: Seq<UserInfo>,
    departure: UserInfo,
    after: Seq<UserInfo>,
    now: u64,
)
    requires
        departure.account_name matches Some(name) && name@ == self_name,
        departure.role == UserRole::NoRole,
        forall|i: int| 0 <= i < after.len() ==> !is_tracked_role(#[trigger] after[i].role),
    ensures
        after_batch(self_name, roster, before.push(departure) + after, now) == Map::<
            Seq<char>,
            SquadMemberState,
        >::empty(),
{
    lemma_after_batch_append(self_name, roster, before.push(departure), after, now);
    assert(before.push(departure).drop_last() =~= before);
    lemma_untracked_records_keep_empty(self_name, after, now);
}

/// A departure of an account that is not in the roster, and is not the
/// tracker's own, changes nothing.
pub proof fn lemma_unknown_leaver_is_noop(
    self_name: Seq<char>,
    roster: Map<Seq<char>, SquadMemberState>,
    departure: UserInfo,
    now: u64,
)
    requires
        departure.account_name matches Some(name) && name@ != self_name && !roster.contains_key(
            name@,
        ),
        departure.role == UserRole::NoRole,
    ensures
        after_record(self_name, roster, departure, now) == roster,
{
    if let Some(name) = departure.account_name {
        assert(roster.remove(name@) =~= roster);
    }
}

/// The leader's record turning them unready concludes the round that
/// started at their last ready time.
pub open spec fn concludes_round(
    roster: Map<Seq<char>, SquadMemberState>,
    leader: UserInfo,
    start: u64,
) -> bool {
    &&& leader.account_name matches Some(name) && roster.contains_key(name@)
        && roster[name@].is_ready && roster[name@].last_ready_time == Some(start)
    &&& leader.role == UserRole::SquadLeader
    &&& !leader.ready_status
}

/// If every member readied at or after the round's start and none has
/// unreadied since, the leader's concluding flip adds to each member's total
/// exactly the time from the start to their ready time (totals held below
/// `u64::MAX`, where they would saturate).
pub proof fn lemma_completed_round_credits_everyone(
    self_name: Seq<char>,
    roster: Map<Seq<char>, SquadMemberState>,
    leader: UserInfo,
    start: u64,
    now: u64,
)
    requires
        concludes_round(roster, leader, start),
        forall|k: Seq<char>| #[trigger]
            roster.contains_key(k) ==> (roster[k].last_ready_time matches Some(ready) && ready
                >= start && (roster[k].last_unready_time matches Some(unready) ==> unready
                <= ready)),
        forall|k: Seq<char>| #[trigger]
            roster.contains_key(k) ==> roster[k].total_ready_check_time + (
            roster[k].last_ready_time->Some_0 - start) <= u64::MAX,
    ensures
        after_record(self_name, roster, leader, now).dom() == roster.dom(),
        forall|k: Seq<char>| #[trigger]
            roster.contains_key(k) ==> after_record(self_name, roster, leader, now)[k].total_ready_check_time
                == roster[k].total_ready_check_time + (roster[k].last_ready_time->Some_0 - start),
{
    let name = leader.account_name->Some_0;
    let key = name@;
    let stamped_roster = after_record(self_name, roster, leader, now);
    let r2 = roster.insert(
        key,
        SquadMemberState {
            join_time: leader.join_time,
            role: leader.role,
            subgroup: leader.subgroup,
            is_ready: false,
            last_unready_time: Some(now),
            ..roster[key]
        },
    );
    assert(round_succeeded(r2, start, now)) by {
        assert forall|k: Seq<char>| #[trigger] r2.contains_key(k) implies participated(r2[k], start, now) by {
            if k != key {
                assert(roster.contains_key(k));
            }
        }
    }
    assert(stamped_roster == concluded(r2, start, now));
    assert(stamped_roster.dom() =~= roster.dom());
}

/// If some member has not readied since the round's start when the leader
/// concludes it, the round is aborted and nobody's total changes.
pub proof fn lemma_aborted_round_changes_no_total(
    self_name: Seq<char>,
    roster: Map<Seq<char>, SquadMemberState>,
    leader: UserInfo,
    start: u64,
    now: u64,
    late: Seq<char>,
)
    requires
        concludes_round(roster, leader, start),
        roster.contains_key(late),
        !(roster[late].last_ready_time matches Some(ready) && ready >= start),
    ensures
        after_record(self_name, roster, leader, now).dom() == roster.dom(),
        forall|k: Seq<char>| #[trigger]
            roster.contains_key(k) ==> after_record(self_name, roster, leader, now)[k].total_ready_check_time
                == roster[k].total_ready_check_time,
{
    let name = leader.account_name->Some_0;
    let key = name@;
    let result = after_record(self_name, roster, leader, now);
    let r2 = roster.insert(
        key,
        SquadMemberState {
            join_time: leader.join_time,
            role: leader.role,
            subgroup: leader.subgroup,
            is_ready: false,
            last_unready_time: Some(now),
            ..roster[key]
        },
    );
    assert(late != key);
    assert(r2.contains_key(late) && !participated(r2[late], start, now));
    assert(result == r2);
    assert(result.dom() =~= roster.dom());
}

/// A member whose last ready time predates the round's start did not take
/// part in it, so the round cannot succeed while they are in the roster and
/// its conclusion changes nothing.
pub proof fn lemma_late_joiner_excluded(
    roster: Map<Seq<char>, SquadMemberState>,
    member: Seq<char>,
    start: u64,
    now: u64,
)
    requires
        roster.contains_key(member),
        roster[member].last_ready_time matches Some(ready) && ready < start,
    ensures
        !participated(roster[member], start, now),
        !round_succeeded(roster, start, now),
        concluded(roster, start, now) == roster,
{
}

/// A member who readied in the round and unreadied after that took part in
/// it exactly when the unready came within the grace window before the
/// conclusion; when everyone else took part, the round's success rests on it.
pub proof fn lemma_grace_window(
    roster: Map<Seq<char>, SquadMemberState>,
    member: Seq<char>,
    start: u64,
    now: u64,
)
    requires
        roster.contains_key(member),
        roster[member].last_ready_time matches Some(ready) && ready >= start,
        roster[member].last_unready_time matches Some(unready) && unready
            > roster[member].last_ready_time->Some_0,
        forall|k: Seq<char>| #[trigger]
            roster.contains_key(k) && k != member ==> participated(roster[k], start, now),
    ensures
        participated(roster[member], start, now) <==> roster[member].last_unready_time->Some_0
            + READY_CHECK_GRACE_MILLIS >= now,
        concluded(roster, start, now) == if roster[member].last_unready_time->Some_0
            + READY_CHECK_GRACE_MILLIS >= now {
            roster.map_values(|m: SquadMemberState| credited(m, start))
        } else {
            roster
        },
{
    if roster[member].last_unready_time->Some_0 + READY_CHECK_GRACE_MILLIS >= now {
        assert(round_succeeded(roster, start, now));
    } else {
        assert(!round_succeeded(roster, start, now));
    }
}

} // verus!

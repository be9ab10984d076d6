use squad_manager::squad_tracker::{SquadMemberState, SquadTracker, UserInfo, UserRole};

fn user(name: &str, role: UserRole, ready: bool) -> UserInfo {
    UserInfo {
        account_name: Some(name.to_string()),
        join_time: 12345,
        role,
        subgroup: 0,
        ready_status: ready,
    }
}

fn member(tracker: &SquadTracker, name: &str) -> Option<SquadMemberState> {
    tracker
        .get_squad_members()
        .into_iter()
        .find(|(n, _)| n == name)
        .map(|(_, s)| s)
}

fn roster_len(tracker: &SquadTracker) -> usize {
    tracker.get_squad_members().len()
}

fn flip(tracker: &mut SquadTracker, name: &str, role: UserRole, ready: bool, now: u64) {
    tracker.squad_update(&vec![user(name, role, ready)], now);
}

fn three_member_squad() -> SquadTracker {
    let mut tracker = SquadTracker::new("self");
    tracker.squad_update(
        &vec![
            user("squad_leader", UserRole::SquadLeader, false),
            user("self", UserRole::Member, false),
            user("peer", UserRole::Member, false),
        ],
        1_000,
    );
    tracker
}

#[test]
fn deregister_self() {
    let mut tracker = SquadTracker::new("self");
    tracker.squad_update(
        &vec![
            user("self", UserRole::Member, false),
            user("squad_leader", UserRole::SquadLeader, false),
        ],
        1_000,
    );
    assert_eq!(roster_len(&tracker), 2);
    assert!(member(&tracker, "self").is_some());
    assert!(member(&tracker, "squad_leader").is_some());

    tracker.squad_update(&vec![user("self", UserRole::NoRole, false)], 2_000);
    assert_eq!(roster_len(&tracker), 0);
}

#[test]
fn self_departure_in_batch_clears_roster() {
    let mut tracker = three_member_squad();
    tracker.squad_update(
        &vec![
            user("peer", UserRole::Member, true),
            user("newcomer", UserRole::Lieutenant, false),
            user("self", UserRole::NoRole, false),
            user("someone_else", UserRole::NoRole, false),
            user("invitee", UserRole::Invited, false),
        ],
        2_000,
    );
    assert_eq!(roster_len(&tracker), 0);
}

#[test]
fn unknown_leaver_is_noop() {
    let mut tracker = three_member_squad();
    let before = tracker.get_squad_members();
    tracker.squad_update(&vec![user("stranger", UserRole::NoRole, false)], 2_000);
    assert_eq!(tracker.get_squad_members(), before);
}

#[test]
fn known_leaver_is_removed() {
    let mut tracker = three_member_squad();
    tracker.squad_update(&vec![user("peer", UserRole::NoRole, false)], 2_000);
    assert_eq!(roster_len(&tracker), 2);
    assert!(member(&tracker, "peer").is_none());
}

#[test]
fn record_without_account_is_dropped() {
    let mut tracker = three_member_squad();
    let before = tracker.get_squad_members();
    let mut rec = user("x", UserRole::Member, true);
    rec.account_name = None;
    tracker.squad_update(&vec![rec], 2_000);
    assert_eq!(tracker.get_squad_members(), before);
}

#[test]
fn ignored_roles_are_noops() {
    let mut tracker = three_member_squad();
    let before = tracker.get_squad_members();
    tracker.squad_update(
        &vec![
            user("peer", UserRole::Invited, true),
            user("applicant", UserRole::Applied, true),
            user("self", UserRole::Invalid, true),
        ],
        2_000,
    );
    assert_eq!(tracker.get_squad_members(), before);
}

#[test]
fn new_member_already_ready_starts_timer() {
    let mut tracker = SquadTracker::new("self");
    tracker.squad_update(&vec![user("peer", UserRole::Member, true)], 7_000);
    let peer = member(&tracker, "peer").unwrap();
    assert!(peer.is_ready);
    assert_eq!(peer.last_ready_time, Some(7_000));
    assert_eq!(peer.last_unready_time, None);
    assert_eq!(peer.total_ready_check_time, 0);
}

#[test]
fn update_overwrites_host_fields() {
    let mut tracker = three_member_squad();
    tracker.squad_update(
        &vec![UserInfo {
            account_name: Some("peer".to_string()),
            join_time: 999,
            role: UserRole::Lieutenant,
            subgroup: 3,
            ready_status: false,
        }],
        2_000,
    );
    let peer = member(&tracker, "peer").unwrap();
    assert_eq!(peer.join_time, 999);
    assert_eq!(peer.role, UserRole::Lieutenant);
    assert_eq!(peer.subgroup, 3);
    assert_eq!(peer.last_unready_time, None);
}

#[test]
fn successful_round_credits_members() {
    let mut tracker = three_member_squad();
    let (t0, t1, t2, t3) = (10_000, 12_000, 15_500, 20_000);
    flip(&mut tracker, "squad_leader", UserRole::SquadLeader, true, t0);
    flip(&mut tracker, "peer", UserRole::Member, true, t1);
    flip(&mut tracker, "self", UserRole::Member, true, t2);
    flip(&mut tracker, "squad_leader", UserRole::SquadLeader, false, t3);
    flip(&mut tracker, "self", UserRole::Member, false, t3 + 100);
    flip(&mut tracker, "peer", UserRole::Member, false, t3 + 200);

    let leader = member(&tracker, "squad_leader").unwrap();
    let me = member(&tracker, "self").unwrap();
    let peer = member(&tracker, "peer").unwrap();
    assert_eq!(me.total_ready_check_time, t2 - t0);
    assert_eq!(peer.total_ready_check_time, t1 - t0);
    assert_eq!(leader.total_ready_check_time, 0);
    assert!(!leader.is_ready && !me.is_ready && !peer.is_ready);
    assert_eq!(leader.last_unready_time, Some(t3));
    assert_eq!(me.last_unready_time, Some(t3 + 100));
}

#[test]
fn successful_round_adds_to_earlier_totals() {
    let mut tracker = three_member_squad();
    // A first round leaves self with 5 s and peer with 2 s.
    flip(&mut tracker, "squad_leader", UserRole::SquadLeader, true, 10_000);
    flip(&mut tracker, "peer", UserRole::Member, true, 12_000);
    flip(&mut tracker, "self", UserRole::Member, true, 15_000);
    flip(&mut tracker, "squad_leader", UserRole::SquadLeader, false, 16_000);
    flip(&mut tracker, "self", UserRole::Member, false, 16_000);
    flip(&mut tracker, "peer", UserRole::Member, false, 16_000);
    assert_eq!(member(&tracker, "self").unwrap().total_ready_check_time, 5_000);
    assert_eq!(member(&tracker, "peer").unwrap().total_ready_check_time, 2_000);

    // A second round adds the new durations.
    flip(&mut tracker, "squad_leader", UserRole::SquadLeader, true, 30_000);
    flip(&mut tracker, "peer", UserRole::Member, true, 30_700);
    flip(&mut tracker, "self", UserRole::Member, true, 31_000);
    flip(&mut tracker, "squad_leader", UserRole::SquadLeader, false, 40_000);
    assert_eq!(member(&tracker, "self").unwrap().total_ready_check_time, 6_000);
    assert_eq!(member(&tracker, "peer").unwrap().total_ready_check_time, 2_700);
    assert_eq!(member(&tracker, "squad_leader").unwrap().total_ready_check_time, 0);
}

#[test]
fn aborted_round_changes_no_total() {
    let mut tracker = three_member_squad();
    let before: Vec<u64> = ["squad_leader", "self", "peer"]
        .iter()
        .map(|n| member(&tracker, n).unwrap().total_ready_check_time)
        .collect();
    flip(&mut tracker, "squad_leader", UserRole::SquadLeader, true, 10_000);
    flip(&mut tracker, "squad_leader", UserRole::SquadLeader, false, 11_000);
    flip(&mut tracker, "peer", UserRole::Member, true, 12_000);
    flip(&mut tracker, "self", UserRole::Member, true, 13_000);
    let after: Vec<u64> = ["squad_leader", "self", "peer"]
        .iter()
        .map(|n| member(&tracker, n).unwrap().total_ready_check_time)
        .collect();
    assert_eq!(before, after);
    assert!(member(&tracker, "peer").unwrap().is_ready);
}

#[test]
fn aborted_round_with_one_member_missing() {
    let mut tracker = three_member_squad();
    flip(&mut tracker, "squad_leader", UserRole::SquadLeader, true, 10_000);
    flip(&mut tracker, "peer", UserRole::Member, true, 12_000);
    flip(&mut tracker, "squad_leader", UserRole::SquadLeader, false, 20_000);
    for name in ["squad_leader", "self", "peer"] {
        assert_eq!(member(&tracker, name).unwrap().total_ready_check_time, 0);
    }
}

#[test]
fn ready_unready_ready_counts_last_ready_time() {
    let mut tracker = three_member_squad();
    flip(&mut tracker, "squad_leader", UserRole::SquadLeader, true, 10_000);
    flip(&mut tracker, "peer", UserRole::Member, true, 11_000);
    flip(&mut tracker, "peer", UserRole::Member, false, 12_000);
    flip(&mut tracker, "peer", UserRole::Member, true, 14_000);
    flip(&mut tracker, "self", UserRole::Member, true, 13_000);
    flip(&mut tracker, "squad_leader", UserRole::SquadLeader, false, 20_000);
    assert_eq!(member(&tracker, "peer").unwrap().total_ready_check_time, 4_000);
    assert_eq!(member(&tracker, "self").unwrap().total_ready_check_time, 3_000);
}

#[test]
fn late_joiner_excluded() {
    // Peer's ready flag is left over from before the round began.
    let mut tracker = three_member_squad();
    flip(&mut tracker, "peer", UserRole::Member, true, 5_000);
    flip(&mut tracker, "squad_leader", UserRole::SquadLeader, true, 10_000);
    flip(&mut tracker, "self", UserRole::Member, true, 12_000);
    flip(&mut tracker, "squad_leader", UserRole::SquadLeader, false, 20_000);
    for name in ["squad_leader", "self", "peer"] {
        assert_eq!(member(&tracker, name).unwrap().total_ready_check_time, 0);
    }
}

#[test]
fn ready_before_restart_counts_from_leader_ready() {
    // Leader and peer were ready when tracking began, at the same instant.
    let mut tracker = SquadTracker::new("self");
    tracker.squad_update(
        &vec![
            user("squad_leader", UserRole::SquadLeader, true),
            user("self", UserRole::Member, false),
            user("peer", UserRole::Member, true),
        ],
        10_000,
    );
    flip(&mut tracker, "self", UserRole::Member, true, 13_000);
    flip(&mut tracker, "self", UserRole::Member, false, 20_000);
    flip(&mut tracker, "squad_leader", UserRole::SquadLeader, false, 20_000);
    assert_eq!(member(&tracker, "self").unwrap().total_ready_check_time, 3_000);
    assert_eq!(member(&tracker, "peer").unwrap().total_ready_check_time, 0);
}

#[test]
fn grace_window_keeps_recent_unready() {
    let mut tracker = three_member_squad();
    flip(&mut tracker, "squad_leader", UserRole::SquadLeader, true, 10_000);
    flip(&mut tracker, "peer", UserRole::Member, true, 11_000);
    flip(&mut tracker, "self", UserRole::Member, true, 12_000);
    // Self unreadies exactly 500 ms before the leader concludes.
    flip(&mut tracker, "self", UserRole::Member, false, 19_500);
    flip(&mut tracker, "squad_leader", UserRole::SquadLeader, false, 20_000);
    assert_eq!(member(&tracker, "self").unwrap().total_ready_check_time, 2_000);
    assert_eq!(member(&tracker, "peer").unwrap().total_ready_check_time, 1_000);
}

#[test]
fn grace_window_excludes_earlier_unready() {
    let mut tracker = three_member_squad();
    flip(&mut tracker, "squad_leader", UserRole::SquadLeader, true, 10_000);
    flip(&mut tracker, "peer", UserRole::Member, true, 11_000);
    flip(&mut tracker, "self", UserRole::Member, true, 12_000);
    // Self unreadies 501 ms before the leader concludes.
    flip(&mut tracker, "self", UserRole::Member, false, 19_499);
    flip(&mut tracker, "squad_leader", UserRole::SquadLeader, false, 20_000);
    assert_eq!(member(&tracker, "self").unwrap().total_ready_check_time, 0);
    assert_eq!(member(&tracker, "peer").unwrap().total_ready_check_time, 0);
}

#[test]
fn same_batch_conclusion_uses_one_instant() {
    let mut tracker = three_member_squad();
    flip(&mut tracker, "squad_leader", UserRole::SquadLeader, true, 10_000);
    flip(&mut tracker, "peer", UserRole::Member, true, 11_000);
    flip(&mut tracker, "self", UserRole::Member, true, 12_500);
    // Everyone unreadies in one batch, self before the leader.
    tracker.squad_update(
        &vec![
            user("self", UserRole::Member, false),
            user("squad_leader", UserRole::SquadLeader, false),
            user("peer", UserRole::Member, false),
        ],
        30_000,
    );
    assert_eq!(member(&tracker, "self").unwrap().total_ready_check_time, 2_500);
    assert_eq!(member(&tracker, "peer").unwrap().total_ready_check_time, 1_000);
}

#[test]
fn current_ready_check_start_follows_leader() {
    let mut tracker = three_member_squad();
    assert_eq!(tracker.current_ready_check_start(), None);
    flip(&mut tracker, "squad_leader", UserRole::SquadLeader, true, 10_000);
    assert_eq!(tracker.current_ready_check_start(), Some(10_000));
    flip(&mut tracker, "squad_leader", UserRole::SquadLeader, false, 11_000);
    assert_eq!(tracker.current_ready_check_start(), None);
}

#[test]
fn mock_data_fills_three_members() {
    let mut tracker = SquadTracker::new("mock_self");
    tracker.setup_mock_data(50_000);
    assert_eq!(roster_len(&tracker), 3);
    let alice = member(&tracker, "Alice").unwrap();
    let bob = member(&tracker, "Bob").unwrap();
    let charlie = member(&tracker, "Charlie").unwrap();
    assert_eq!(alice.total_ready_check_time, 100_000);
    assert!(!alice.is_ready);
    assert_eq!(bob.role, UserRole::SquadLeader);
    assert_eq!(bob.last_ready_time, Some(50_000));
    assert_eq!(bob.total_ready_check_time, 200_000);
    assert_eq!(charlie.last_ready_time, Some(40_000));
    assert_eq!(charlie.total_ready_check_time, 100_000);
    assert_eq!(tracker.current_ready_check_start(), Some(50_000));
}

use squad_manager::chat_log::{Channel, ChannelType, ChatLog, ChatMessageInfo};
use squad_manager::ready_check_table::{
    channel_label, compare_rows, ready_check_elapsed, ready_check_rows, seconds_and_tenths,
    ColumnSort, ReadyCheckRow, TableSortDirection,
};
use squad_manager::squad_tracker::{SquadMemberState, SquadTracker, UserInfo, UserRole};
use squad_manager::unofficial_extras_init;
use std::cmp::Ordering;

fn message(channel_id: u32, channel_type: ChannelType, subgroup: u8, text: &str, ts: i64) -> ChatMessageInfo {
    ChatMessageInfo {
        channel_id,
        channel_type,
        subgroup,
        is_broadcast: false,
        timestamp: ts,
        account_name: "mock_self".to_string(),
        character_name: "character_self".to_string(),
        text: text.to_string(),
    }
}

fn state(total: u64) -> SquadMemberState {
    SquadMemberState {
        join_time: 0,
        role: UserRole::Member,
        subgroup: 0,
        is_ready: false,
        last_ready_time: None,
        last_unready_time: None,
        total_ready_check_time: total,
    }
}

fn row(name: &str, total: u64, current: Option<u64>) -> ReadyCheckRow {
    ReadyCheckRow { account_name: name.to_string(), state: state(total), current_ready_check_time: current }
}

#[test]
fn chat_log_groups_by_channel() {
    let mut log = ChatLog::new();
    log.add(&message(1, ChannelType::Squad, u8::MAX, "first", 10));
    log.add(&message(2, ChannelType::Party, 0, "second", 20));
    log.add(&message(1, ChannelType::Squad, u8::MAX, "third", 30));
    let all = log.get_all_messages();
    let texts: Vec<&str> = all.iter().map(|(_, m)| m.text.as_str()).collect();
    assert_eq!(texts, vec!["first", "third", "second"]);
    assert_eq!(all[0].0, Channel { channel_id: 1, channel_type: ChannelType::Squad, subgroup: u8::MAX });
    assert_eq!(all[2].0.channel_type, ChannelType::Party);
    assert_eq!(all[1].1.timestamp, 30);
}

#[test]
fn chat_log_starts_empty() {
    assert!(ChatLog::new().get_all_messages().is_empty());
}

#[test]
fn channel_labels() {
    let squad = Channel { channel_id: 1, channel_type: ChannelType::Squad, subgroup: u8::MAX };
    let group = Channel { channel_id: 1, channel_type: ChannelType::Squad, subgroup: 4 };
    let last_group = Channel { channel_id: 1, channel_type: ChannelType::Squad, subgroup: 254 };
    let party = Channel { channel_id: 1, channel_type: ChannelType::Party, subgroup: 0 };
    let other = Channel { channel_id: 1, channel_type: ChannelType::Invalid, subgroup: 0 };
    assert_eq!(channel_label(&squad, false), "S");
    assert_eq!(channel_label(&group, false), "5");
    assert_eq!(channel_label(&last_group, false), "255");
    assert_eq!(channel_label(&party, true), "P (B)");
    assert_eq!(channel_label(&other, false), "?");
    let tenth = Channel { channel_id: 1, channel_type: ChannelType::Squad, subgroup: 9 };
    assert_eq!(channel_label(&tenth, true), "10 (B)");
}

#[test]
fn elapsed_time_in_round() {
    let mut s = state(0);
    assert_eq!(ready_check_elapsed(&s, 10_000, 13_000), 3_000);
    s.is_ready = true;
    s.last_ready_time = Some(11_500);
    assert_eq!(ready_check_elapsed(&s, 10_000, 13_000), 1_500);
    s.last_ready_time = Some(9_000);
    assert_eq!(ready_check_elapsed(&s, 10_000, 13_000), 0);
}

#[test]
fn rows_carry_running_check_time() {
    let mut tracker = SquadTracker::new("self");
    let rec = |name: &str, role: UserRole, ready: bool| UserInfo {
        account_name: Some(name.to_string()),
        join_time: 1,
        role,
        subgroup: 0,
        ready_status: ready,
    };
    tracker.squad_update(&vec![rec("lead", UserRole::SquadLeader, false), rec("peer", UserRole::Member, false)], 1_000);
    let rows = ready_check_rows(&tracker, 2_000);
    assert!(rows.iter().all(|r| r.current_ready_check_time.is_none()));
    tracker.squad_update(&vec![rec("lead", UserRole::SquadLeader, true)], 5_000);
    tracker.squad_update(&vec![rec("peer", UserRole::Member, true)], 6_200);
    let rows = ready_check_rows(&tracker, 9_000);
    let peer = rows.iter().find(|r| r.account_name == "peer").unwrap();
    let lead = rows.iter().find(|r| r.account_name == "lead").unwrap();
    assert_eq!(peer.current_ready_check_time, Some(1_200));
    assert_eq!(lead.current_ready_check_time, Some(0));
}

#[test]
fn compare_rows_by_columns() {
    let a = row("alice", 5_000, Some(100));
    let b = row("bob", 5_000, None);
    let desc = |c: usize| ColumnSort { column_idx: c, sort_direction: Some(TableSortDirection::Descending) };
    let asc = |c: usize| ColumnSort { column_idx: c, sort_direction: Some(TableSortDirection::Ascending) };
    assert_eq!(compare_rows(&a, &b, &vec![desc(0)]), Ordering::Less);
    assert_eq!(compare_rows(&a, &b, &vec![asc(0)]), Ordering::Greater);
    assert_eq!(
        compare_rows(&a, &b, &vec![ColumnSort { column_idx: 0, sort_direction: None }]),
        Ordering::Greater
    );
    // Equal totals pass to the next criterion.
    assert_eq!(compare_rows(&a, &b, &vec![desc(2), desc(1)]), Ordering::Greater);
    assert_eq!(compare_rows(&a, &b, &vec![desc(7), desc(2)]), Ordering::Equal);
    assert_eq!(compare_rows(&a, &b, &vec![]), Ordering::Equal);
}

#[test]
fn seconds_and_tenths_split() {
    assert_eq!(seconds_and_tenths(12_345), (12, 3));
    assert_eq!(seconds_and_tenths(999), (0, 9));
    assert_eq!(seconds_and_tenths(0), (0, 0));
}

#[test]
fn init_needs_account_name() {
    let mut tracker: Option<SquadTracker> = None;
    let mut log: Option<ChatLog> = None;
    assert!(!unofficial_extras_init(&mut tracker, &mut log, None));
    assert!(tracker.is_none() && log.is_none());
    assert!(unofficial_extras_init(&mut tracker, &mut log, Some("self")));
    assert!(tracker.is_some() && log.is_some());
    tracker.as_mut().unwrap().squad_update(
        &vec![UserInfo {
            account_name: Some("peer".to_string()),
            join_time: 1,
            role: UserRole::Member,
            subgroup: 0,
            ready_status: false,
        }],
        1_000,
    );
    assert!(unofficial_extras_init(&mut tracker, &mut log, Some("other")));
    assert_eq!(tracker.as_ref().unwrap().get_squad_members().len(), 1);
}

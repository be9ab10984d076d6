//! What a display of the roster shows: one row per member with the time
//! spent in the running ready check, rows ordered by the columns the user
//! picked, and labels for chat channels.
use vstd::prelude::*;
use core::cmp::Ordering;
use crate::chat_log::{Channel, ChannelType};
use crate::squad_tracker::{keys_unique, roster_view, SquadMemberState, SquadTracker, UserRole};
use crate::text::{decimal_text, push_char, push_decimal};

verus! {

/// The direction a table column is sorted in.
#[derive(Copy, Clone, Debug, Eq, PartialEq, PartialOrd, Ord, Structural)]
pub enum TableSortDirection {
    Ascending,
    Descending,
}

/// One sort criterion of a table: the column, and the direction if the user
/// picked one (ascending otherwise).
#[derive(Copy, Clone, Debug, PartialEq, Eq, Structural)]
pub struct ColumnSort {
    pub column_idx: usize,
    pub sort_direction: Option<TableSortDirection>,
}

/// One row of the ready-check table.
#[derive(Clone, Debug)]
pub struct ReadyCheckRow {
    pub account_name: String,
    pub state: SquadMemberState,
    /// Time spent in the running ready check; `None` when none is running.
    pub current_ready_check_time: Option<u64>,
}

/// How long `m` has been in the ready check that started at `start`: up to
/// their ready time if they are ready, else up to `now`; nothing if that
/// instant is before the start.
pub open spec fn elapsed_in_round(m: SquadMemberState, start: u64, now: u64) -> u64 {
    let until = if m.is_ready && m.last_ready_time is Some {
        m.last_ready_time->Some_0
    } else {
        now
    };
    if until >= start {
        (until - start) as u64
    } else {
        0
    }
}

/// The time `state`'s member has spent in the ready check that started at
/// `start`. A ready member of a tracker always has a ready time; one without
/// is counted up to `now`.
pub fn ready_check_elapsed(state: &SquadMemberState, start: u64, now: u64) -> (r: u64)
    ensures
        r == elapsed_in_round(*state, start, now),
{
    let until = if state.is_ready {
        match state.last_ready_time {
            Some(t) => t,
            None => now,
        }
    } else {
        now
    };
    if until >= start {
        until - start
    } else {
        0
    }
}

/// The rows of the ready-check table, one per member of the tracker.
pub fn ready_check_rows(tracker: &SquadTracker, now: u64) -> (r: Vec<ReadyCheckRow>)
    ensures
        keys_unique(r@.map_values(|row: ReadyCheckRow| row.account_name)),
        roster_view(
            r@.map_values(|row: ReadyCheckRow| row.account_name),
            r@.map_values(|row: ReadyCheckRow| row.state),
        ) == tracker@,
        forall|i: int|
            0 <= i < r.len() ==> (#[trigger] r@[i]).current_ready_check_time == match tracker.current_round_start() {
                Some(start) => Some(elapsed_in_round(r@[i].state, start, now)),
                None => None,
            },
{
    let members = tracker.get_squad_members();
    let start = tracker.current_ready_check_start();
    let mut rows: Vec<ReadyCheckRow> = Vec::new();
    let n = members.len();
    for i in 0..n
        invariant
            n == members.len(),
            start == tracker.current_round_start(),
            rows.len() == i,
            forall|j: int|
                0 <= j < i ==> (#[trigger] rows@[j]).account_name == members@[j].0 && rows@[j].state
                    == members@[j].1 && rows@[j].current_ready_check_time == match start {
                    Some(s) => Some(elapsed_in_round(members@[j].1, s, now)),
                    None => None,
                },
    {
        let (name, state) = (members[i].0.clone(), members[i].1);
        let current = match start {
            Some(s) => Some(ready_check_elapsed(&state, s, now)),
            None => None,
        };
        rows.push(ReadyCheckRow { account_name: name, state, current_ready_check_time: current });
    }
    assert(rows@.map_values(|row: ReadyCheckRow| row.account_name) =~= members@.map_values(
        |p: (String, SquadMemberState)| p.0,
    ));
    assert(rows@.map_values(|row: ReadyCheckRow| row.state) =~= members@.map_values(
        |p: (String, SquadMemberState)| p.1,
    ));
    rows
}

/// The order of two account names, character by character.
pub open spec fn name_order(a: Seq<char>, b: Seq<char>) -> Ordering
    decreases a.len(),
{
    if a.len() == 0 {
        if b.len() == 0 {
            Ordering::Equal
        } else {
            Ordering::Less
        }
    } else if b.len() == 0 {
        Ordering::Greater
    } else if (a[0] as u32) < (b[0] as u32) {
        Ordering::Less
    } else if (a[0] as u32) > (b[0] as u32) {
        Ordering::Greater
    } else {
        name_order(a.drop_first(), b.drop_first())
    }
}

/// Relies on `Ord::cmp` for `str`: lexicographic order of the UTF-8 bytes,
/// which is the order of the characters' code points.
#[verifier::external_body]
fn compare_names(a: &str, b: &str) -> (r: Ordering)
    ensures
        r == name_order(a@, b@),
{
    a.cmp(b)
}

/// The order of two numbers.
pub open spec fn number_order(a: int, b: int) -> Ordering {
    if a < b {
        Ordering::Less
    } else if a > b {
        Ordering::Greater
    } else {
        Ordering::Equal
    }
}

fn compare_numbers(a: u64, b: u64) -> (r: Ordering)
    ensures
        r == number_order(a as int, b as int),
{
    if a < b {
        Ordering::Less
    } else if a > b {
        Ordering::Greater
    } else {
        Ordering::Equal
    }
}

/// The order of two optional times: no time comes first.
pub open spec fn optional_order(a: Option<u64>, b: Option<u64>) -> Ordering {
    match (a, b) {
        (None, None) => Ordering::Equal,
        (None, Some(_)) => Ordering::Less,
        (Some(_), None) => Ordering::Greater,
        (Some(x), Some(y)) => number_order(x as int, y as int),
    }
}

/// The order of two rows by one column: account name, time in the running
/// check, total time; any other column ranks them equal.
pub open spec fn column_order(lhs: ReadyCheckRow, rhs: ReadyCheckRow, column: usize) -> Ordering {
    if column == 0 {
        name_order(lhs.account_name@, rhs.account_name@)
    } else if column == 1 {
        optional_order(lhs.current_ready_check_time, rhs.current_ready_check_time)
    } else if column == 2 {
        number_order(
            lhs.state.total_ready_check_time as int,
            rhs.state.total_ready_check_time as int,
        )
    } else {
        Ordering::Equal
    }
}

/// `o` the other way round.
pub open spec fn reversed(o: Ordering) -> Ordering {
    match o {
        Ordering::Less => Ordering::Greater,
        Ordering::Equal => Ordering::Equal,
        Ordering::Greater => Ordering::Less,
    }
}

/// The order of two rows: the first criterion that tells them apart decides,
/// turned round unless that criterion is descending.
pub open spec fn rows_order(lhs: ReadyCheckRow, rhs: ReadyCheckRow, specs: Seq<ColumnSort>) -> Ordering
    decreases specs.len(),
{
    if specs.len() == 0 {
        Ordering::Equal
    } else {
        let o = column_order(lhs, rhs, specs[0].column_idx);
        if o == Ordering::Equal {
            rows_order(lhs, rhs, specs.drop_first())
        } else if specs[0].sort_direction == Some(TableSortDirection::Descending) {
            o
        } else {
            reversed(o)
        }
    }
}

/// Compares two rows of the ready-check table under the sort criteria `specs`.
pub fn compare_rows(lhs: &ReadyCheckRow, rhs: &ReadyCheckRow, specs: &Vec<ColumnSort>) -> (r: Ordering)
    ensures
        r == rows_order(*lhs, *rhs, specs@),
{
    let n = specs.len();
    assert(specs@.skip(0) =~= specs@);
    for i in 0..n
        invariant
            n == specs.len(),
            rows_order(*lhs, *rhs, specs@) == rows_order(*lhs, *rhs, specs@.skip(i as int)),
    {
        assert(specs@.skip(i as int).drop_first() =~= specs@.skip(i + 1));
        let spec = specs[i];
        let result = if spec.column_idx == 0 {
            compare_names(lhs.account_name.as_str(), rhs.account_name.as_str())
        } else if spec.column_idx == 1 {
            match (lhs.current_ready_check_time, rhs.current_ready_check_time) {
                (None, None) => Ordering::Equal,
                (None, Some(_)) => Ordering::Less,
                (Some(_), None) => Ordering::Greater,
                (Some(x), Some(y)) => compare_numbers(x, y),
            }
        } else if spec.column_idx == 2 {
            compare_numbers(lhs.state.total_ready_check_time, rhs.state.total_ready_check_time)
        } else {
            Ordering::Equal
        };
        match result {
            Ordering::Equal => {},
            _ => {
                if spec.sort_direction == Some(TableSortDirection::Descending) {
                    return result;
                }
                return match result {
                    Ordering::Less => Ordering::Greater,
                    Ordering::Greater => Ordering::Less,
                    Ordering::Equal => Ordering::Equal,
                };
            },
        }
    }
    assert(specs@.skip(n as int) =~= Seq::<ColumnSort>::empty());
    Ordering::Equal
}

/// Splits milliseconds into whole seconds and tenths of a second.
pub fn seconds_and_tenths(millis: u64) -> (r: (u64, u64))
    ensures
        r.0 == millis / 1000,
        r.1 == (millis % 1000) / 100,
        r.1 < 10,
{
    (millis / 1000, (millis % 1000) / 100)
}

/// The label of a chat message's channel: `P` for the party, `S` for the
/// whole squad, the subgroup number counted from one for a subgroup, `?`
/// otherwise; ` (B)` follows for a broadcast.
pub open spec fn channel_label_text(channel: Channel, is_broadcast: bool) -> Seq<char> {
    let base = match channel.channel_type {
        ChannelType::Party => seq!['P'],
        ChannelType::Squad => if channel.subgroup == u8::MAX {
            seq!['S']
        } else {
            decimal_text(channel.subgroup as nat + 1)
        },
        _ => seq!['?'],
    };
    if is_broadcast {
        base + seq![' ', '(', 'B', ')']
    } else {
        base
    }
}

/// The label shown for a message's channel.
pub fn channel_label(channel: &Channel, is_broadcast: bool) -> (r: String)
    ensures
        r@ == channel_label_text(*channel, is_broadcast),
{
    let mut label = String::new();
    match channel.channel_type {
        ChannelType::Party => push_char(&mut label, 'P'),
        ChannelType::Squad => {
            if channel.subgroup == u8::MAX {
                push_char(&mut label, 'S');
            } else {
                push_decimal(&mut label, channel.subgroup + 1);
            }
        },
        _ => push_char(&mut label, '?'),
    }
    let ghost base = label@;
    assert(base =~= channel_label_text(*channel, false));
    if is_broadcast {
        push_char(&mut label, ' ');
        push_char(&mut label, '(');
        push_char(&mut label, 'B');
        push_char(&mut label, ')');
        assert(label@ =~= base + seq![' ', '(', 'B', ')']);
    }
    label
}

} // verus!

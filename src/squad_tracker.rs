//! The roster of squad members and the ready-check accounting built on it.
//!
//! Times are milliseconds on a monotonic clock chosen by the caller; one
//! timestamp is used for every record of a batch.
use vstd::prelude::*;

verus! {

/// Members who unready within this many milliseconds of the concluding
/// instant still count as having taken part in the round.
pub const READY_CHECK_GRACE_MILLIS: u64 = 500;

/// The role a squad member holds, as reported by the host.
#[derive(Clone, Copy, Debug, PartialEq, Eq, Structural)]
pub enum UserRole {
    SquadLeader,
    Lieutenant,
    Member,
    Invited,
    Applied,
    NoRole,
    Invalid,
}

/// One membership record of an update batch.
#[derive(Clone, Debug)]
pub struct UserInfo {
    pub account_name: Option<String>,
    pub join_time: u64,
    pub role: UserRole,
    pub subgroup: u8,
    pub ready_status: bool,
}

/// What is tracked of one squad member.
#[derive(Clone, Copy, Debug, PartialEq, Eq, Structural)]
pub struct SquadMemberState {
    pub join_time: u64,
    pub role: UserRole,
    pub subgroup: u8,
    pub is_ready: bool,
    pub last_ready_time: Option<u64>,
    pub last_unready_time: Option<u64>,
    pub total_ready_check_time: u64,
}

/// Roles of members that are part of the roster.
pub open spec fn is_tracked_role(role: UserRole) -> bool {
    role == UserRole::SquadLeader || role == UserRole::Lieutenant || role == UserRole::Member
}

/// The state of a member seen for the first time.
pub open spec fn fresh_member(rec: UserInfo) -> SquadMemberState {
    SquadMemberState {
        join_time: rec.join_time,
        role: rec.role,
        subgroup: rec.subgroup,
        is_ready: rec.ready_status,
        last_ready_time: None,
        last_unready_time: None,
        total_ready_check_time: 0,
    }
}

/// A known member after a record about them: the host's fields are taken over.
pub open spec fn refreshed_member(m: SquadMemberState, rec: UserInfo) -> SquadMemberState {
    SquadMemberState {
        join_time: rec.join_time,
        role: rec.role,
        subgroup: rec.subgroup,
        is_ready: rec.ready_status,
        ..m
    }
}

/// A member whose ready flag has just flipped to `m.is_ready` at `now`.
pub open spec fn stamped(m: SquadMemberState, now: u64) -> SquadMemberState {
    if m.is_ready {
        SquadMemberState { last_ready_time: Some(now), ..m }
    } else {
        SquadMemberState { last_unready_time: Some(now), ..m }
    }
}

/// The start of the round that a flip of `m` (already applied to `m`) concludes:
/// only a squad leader turning unready concludes a round, and its anchor is the
/// leader's own last ready time.
pub open spec fn concluded_round_start(m: SquadMemberState) -> Option<u64> {
    if m.role == UserRole::SquadLeader && !m.is_ready {
        m.last_ready_time
    } else {
        None
    }
}

/// Whether `m` readied during the round that started at `start` and concluded
/// at `now`: readied at or after the start, and did not unready again earlier
/// than the grace window before the conclusion.
pub open spec fn participated(m: SquadMemberState, start: u64, now: u64) -> bool {
    match m.last_ready_time {
        Some(ready) => {
            &&& ready >= start
            &&& !(match m.last_unready_time {
                Some(unready) => unready > ready && unready + READY_CHECK_GRACE_MILLIS < now,
                None => false,
            })
        },
        None => false,
    }
}

/// `total + d`, held at `u64::MAX`.
pub open spec fn saturating_sum(total: u64, d: int) -> u64 {
    if total + d > u64::MAX {
        u64::MAX
    } else {
        (total + d) as u64
    }
}

/// The time `m` took to ready up in the round that started at `start`.
pub open spec fn time_to_ready(m: SquadMemberState, start: u64) -> int {
    match m.last_ready_time {
        Some(ready) => if ready >= start { ready - start } else { 0 },
        None => 0,
    }
}

/// `m` after being credited for the round that started at `start`.
pub open spec fn credited(m: SquadMemberState, start: u64) -> SquadMemberState {
    SquadMemberState {
        total_ready_check_time: saturating_sum(m.total_ready_check_time, time_to_ready(m, start)),
        ..m
    }
}

/// A round succeeded when every current member took part in it.
pub open spec fn round_succeeded(
    roster: Map<Seq<char>, SquadMemberState>,
    start: u64,
    now: u64,
) -> bool {
    forall|k: Seq<char>| #[trigger] roster.contains_key(k) ==> participated(roster[k], start, now)
}

/// The roster after the conclusion sweep of the round that started at `start`:
/// on success every member is credited, on abort nothing changes.
pub open spec fn concluded(
    roster: Map<Seq<char>, SquadMemberState>,
    start: u64,
    now: u64,
) -> Map<Seq<char>, SquadMemberState> {
    if round_succeeded(roster, start, now) {
        roster.map_values(|m: SquadMemberState| credited(m, start))
    } else {
        roster
    }
}

/// Every member took part in the round, stated over the sequence of states.
pub open spec fn all_participated(states: Seq<SquadMemberState>, start: u64, now: u64) -> bool {
    forall|i: int| 0 <= i < states.len() ==> participated(#[trigger] states[i], start, now)
}

/// The roster after one membership record, processed at `now` by the tracker
/// of the user `self_name`.
pub open spec fn after_record(
    self_name: Seq<char>,
    roster: Map<Seq<char>, SquadMemberState>,
    rec: UserInfo,
    now: u64,
) -> Map<Seq<char>, SquadMemberState> {
    match rec.account_name {
        None => roster,
        Some(name) => {
            let key = name@;
            if is_tracked_role(rec.role) {
                let known = roster.contains_key(key);
                let m = if known {
                    refreshed_member(roster[key], rec)
                } else {
                    fresh_member(rec)
                };
                let flipped = if known {
                    roster[key].is_ready != rec.ready_status
                } else {
                    rec.ready_status
                };
                if flipped {
                    let stamped_roster = roster.insert(key, stamped(m, now));
                    match concluded_round_start(m) {
                        Some(start) => concluded(stamped_roster, start, now),
                        None => stamped_roster,
                    }
                } else {
                    roster.insert(key, m)
                }
            } else if rec.role == UserRole::NoRole {
                if key == self_name {
                    Map::empty()
                } else {
                    roster.remove(key)
                }
            } else {
                roster
            }
        },
    }
}

/// The roster after a batch of records, applied in order, all at `now`.
pub open spec fn after_batch(
    self_name: Seq<char>,
    roster: Map<Seq<char>, SquadMemberState>,
    recs: Seq<UserInfo>,
    now: u64,
) -> Map<Seq<char>, SquadMemberState>
    decreases recs.len(),
{
    if recs.len() == 0 {
        roster
    } else {
        after_record(self_name, after_batch(self_name, roster, recs.drop_last(), now), recs.last(), now)
    }
}

impl SquadMemberState {
    /// A member not yet seen readying or unreadying, with no time credited.
    pub open spec fn spec_new(join_time: u64, role: UserRole, subgroup: u8, is_ready: bool) -> Self {
        SquadMemberState {
            join_time,
            role,
            subgroup,
            is_ready,
            last_ready_time: None,
            last_unready_time: None,
            total_ready_check_time: 0,
        }
    }

    fn new(join_time: u64, role: UserRole, subgroup: u8, is_ready: bool) -> (r: Self)
        ensures
            r == Self::spec_new(join_time, role, subgroup, is_ready),
    {
        SquadMemberState {
            join_time,
            role,
            subgroup,
            is_ready,
            last_ready_time: None,
            last_unready_time: None,
            total_ready_check_time: 0,
        }
    }

    fn update_user(&mut self, update: &UserInfo)
        ensures
            *final(self) == refreshed_member(*old(self), *update),
    {
        self.join_time = update.join_time;
        self.role = update.role;
        self.subgroup = update.subgroup;
        self.is_ready = update.ready_status;
    }
}

/// Records the flip of `member`'s ready flag (already set to its new value) at
/// `now`, and returns the start of the round that the flip concludes, if any.
fn handle_ready_status_changed(member: &mut SquadMemberState, now: u64) -> (r: Option<u64>)
    ensures
        *final(member) == stamped(*old(member), now),
        r == concluded_round_start(*old(member)),
{
    let mut ready_check_start_time: Option<u64> = None;
    if member.role == UserRole::SquadLeader && !member.is_ready {
        ready_check_start_time = member.last_ready_time;
    }
    if member.is_ready {
        member.last_ready_time = Some(now);
    } else {
        member.last_unready_time = Some(now);
    }
    ready_check_start_time
}

/// Account names that are pairwise distinct.
pub open spec fn keys_unique(names: Seq<String>) -> bool {
    forall|i: int, j: int|
        0 <= i < names.len() && 0 <= j < names.len() && i != j ==> #[trigger] names[i]@
            != #[trigger] names[j]@
}

/// The roster held in two parallel sequences, as a map from account name to state.
pub open spec fn roster_view(names: Seq<String>, states: Seq<SquadMemberState>) -> Map<
    Seq<char>,
    SquadMemberState,
> {
    Map::new(
        |k: Seq<char>| exists|i: int| 0 <= i < names.len() && #[trigger] names[i]@ == k,
        |k: Seq<char>| states[choose|i: int| 0 <= i < names.len() && #[trigger] names[i]@ == k],
    )
}

proof fn lemma_roster_view_at(names: Seq<String>, states: Seq<SquadMemberState>, i: int)
    requires
        keys_unique(names),
        names.len() == states.len(),
        0 <= i < names.len(),
    ensures
        roster_view(names, states).contains_key(names[i]@),
        roster_view(names, states)[names[i]@] == states[i],
{
    let k = names[i]@;
    assert(names[i]@ == k);
    let j = choose|j: int| 0 <= j < names.len() && #[trigger] names[j]@ == k;
    assert(j == i);
}

proof fn lemma_roster_view(names: Seq<String>, states: Seq<SquadMemberState>)
    requires
        keys_unique(names),
        names.len() == states.len(),
    ensures
        forall|i: int|
            0 <= i < names.len() ==> #[trigger] roster_view(names, states).contains_key(names[i]@)
                && roster_view(names, states)[names[i]@] == states[i],
        forall|k: Seq<char>| #[trigger]
            roster_view(names, states).contains_key(k) ==> exists|i: int|
                0 <= i < names.len() && #[trigger] names[i]@ == k,
{
    assert forall|i: int| 0 <= i < names.len() implies #[trigger] roster_view(
        names,
        states,
    ).contains_key(names[i]@) && roster_view(names, states)[names[i]@] == states[i] by {
        lemma_roster_view_at(names, states, i);
    }
}

proof fn lemma_roster_view_set(
    names: Seq<String>,
    states: Seq<SquadMemberState>,
    i: int,
    m: SquadMemberState,
)
    requires
        keys_unique(names),
        names.len() == states.len(),
        0 <= i < names.len(),
    ensures
        roster_view(names, states.update(i, m)) == roster_view(names, states).insert(names[i]@, m),
{
    let s2 = states.update(i, m);
    lemma_roster_view(names, states);
    lemma_roster_view(names, s2);
    assert(roster_view(names, s2) =~= roster_view(names, states).insert(names[i]@, m));
}

proof fn lemma_roster_view_push(
    names: Seq<String>,
    states: Seq<SquadMemberState>,
    name: String,
    m: SquadMemberState,
)
    requires
        keys_unique(names),
        names.len() == states.len(),
        !roster_view(names, states).contains_key(name@),
    ensures
        keys_unique(names.push(name)),
        roster_view(names.push(name), states.push(m)) == roster_view(names, states).insert(name@, m),
{
    let n2 = names.push(name);
    let s2 = states.push(m);
    lemma_roster_view(names, states);
    assert forall|i: int, j: int|
        0 <= i < n2.len() && 0 <= j < n2.len() && i != j implies #[trigger] n2[i]@ != #[trigger] n2[j]@ by {
        if i < names.len() && j < names.len() {
            assert(n2[i] == names[i] && n2[j] == names[j]);
        } else if i < names.len() {
            assert(roster_view(names, states).contains_key(names[i]@));
        } else {
            assert(roster_view(names, states).contains_key(names[j]@));
        }
    }
    lemma_roster_view(n2, s2);
    assert forall|k: Seq<char>| #[trigger]
        roster_view(n2, s2).contains_key(k) <==> roster_view(names, states).insert(name@, m).contains_key(k) by {
        if roster_view(names, states).contains_key(k) {
            let i = choose|i: int| 0 <= i < names.len() && #[trigger] names[i]@ == k;
            assert(n2[i] == names[i]);
        }
        if k == name@ {
            assert(n2[names.len() as int] == name);
        }
    }
    assert forall|k: Seq<char>| #[trigger] roster_view(n2, s2).contains_key(k) implies roster_view(n2, s2)[k]
        == roster_view(names, states).insert(name@, m)[k] by {
        if k == name@ {
            assert(n2[names.len() as int] == name);
        } else {
            let i = choose|i: int| 0 <= i < names.len() && #[trigger] names[i]@ == k;
            assert(n2[i] == names[i]);
        }
    }
    assert(roster_view(n2, s2) =~= roster_view(names, states).insert(name@, m));
}

proof fn lemma_roster_view_remove(names: Seq<String>, states: Seq<SquadMemberState>, i: int)
    requires
        keys_unique(names),
        names.len() == states.len(),
        0 <= i < names.len(),
    ensures
        keys_unique(names.remove(i)),
        roster_view(names.remove(i), states.remove(i)) == roster_view(names, states).remove(
            names[i]@,
        ),
{
    let n2 = names.remove(i);
    let s2 = states.remove(i);
    let v = roster_view(names, states);
    lemma_roster_view(names, states);
    assert forall|a: int, b: int|
        0 <= a < n2.len() && 0 <= b < n2.len() && a != b implies #[trigger] n2[a]@ != #[trigger] n2[b]@ by {
        let a0 = if a < i { a } else { a + 1 };
        let b0 = if b < i { b } else { b + 1 };
        assert(n2[a] == names[a0] && n2[b] == names[b0]);
    }
    lemma_roster_view(n2, s2);
    assert forall|k: Seq<char>| #[trigger]
        roster_view(n2, s2).contains_key(k) <==> v.remove(names[i]@).contains_key(k) by {
        if roster_view(n2, s2).contains_key(k) {
            let a = choose|a: int| 0 <= a < n2.len() && #[trigger] n2[a]@ == k;
            let a0 = if a < i { a } else { a + 1 };
            assert(n2[a] == names[a0]);
        }
        if v.remove(names[i]@).contains_key(k) {
            let j = choose|j: int| 0 <= j < names.len() && #[trigger] names[j]@ == k;
            assert(j != i);
            let a = if j < i { j } else { j - 1 };
            assert(n2[a] == names[j]);
        }
    }
    assert forall|k: Seq<char>| #[trigger] roster_view(n2, s2).contains_key(k) implies roster_view(n2, s2)[k]
        == v.remove(names[i]@)[k] by {
        let a = choose|a: int| 0 <= a < n2.len() && #[trigger] n2[a]@ == k;
        let a0 = if a < i { a } else { a + 1 };
        assert(n2[a] == names[a0]);
        assert(s2[a] == states[a0]);
    }
    assert(roster_view(n2, s2) =~= v.remove(names[i]@));
}

proof fn lemma_roster_view_credit(names: Seq<String>, states: Seq<SquadMemberState>, start: u64, now: u64)
    requires
        keys_unique(names),
        names.len() == states.len(),
    ensures
        round_succeeded(roster_view(names, states), start, now) == all_participated(states, start, now),
        roster_view(names, states.map_values(|m: SquadMemberState| credited(m, start)))
            == roster_view(names, states).map_values(|m: SquadMemberState| credited(m, start)),
{
    let v = roster_view(names, states);
    let s2 = states.map_values(|m: SquadMemberState| credited(m, start));
    lemma_roster_view(names, states);
    lemma_roster_view(names, s2);
    if all_participated(states, start, now) {
        assert forall|k: Seq<char>| #[trigger] v.contains_key(k) implies participated(v[k], start, now) by {
            let i = choose|i: int| 0 <= i < names.len() && #[trigger] names[i]@ == k;
        }
    }
    if round_succeeded(v, start, now) {
        assert forall|i: int| 0 <= i < states.len() implies participated(#[trigger] states[i], start, now) by {
            assert(v.contains_key(names[i]@));
        }
    }
    assert forall|k: Seq<char>| #[trigger] roster_view(names, s2).contains_key(k) implies roster_view(names, s2)[k]
        == credited(v[k], start) by {
        let i = choose|i: int| 0 <= i < names.len() && #[trigger] names[i]@ == k;
    }
    assert(roster_view(names, s2) =~= v.map_values(|m: SquadMemberState| credited(m, start)));
}

/// The conclusion sweep of the round that started at `start` and concluded at
/// `now`: when every member took part, each is credited with the time they
/// took to ready up; otherwise nothing changes.
fn handle_ready_check_finished(states: &mut Vec<SquadMemberState>, start: u64, now: u64)
    ensures
        final(states)@ == if all_participated(old(states)@, start, now) {
            old(states)@.map_values(|m: SquadMemberState| credited(m, start))
        } else {
            old(states)@
        },
{
    let n = states.len();
    let mut readied: usize = 0;
    for i in 0..n
        invariant
            n == states.len(),
            readied <= i,
            readied == i <==> forall|j: int| 0 <= j < i ==> participated(#[trigger] states@[j], start, now),
    {
        let state = states[i];
        let took_part = match state.last_ready_time {
            Some(ready_time) => {
                if ready_time < start {
                    false
                } else {
                    match state.last_unready_time {
                        Some(unready_time) => !(unready_time > ready_time && now >= READY_CHECK_GRACE_MILLIS
                            && unready_time < now - READY_CHECK_GRACE_MILLIS),
                        None => true,
                    }
                }
            },
            None => false,
        };
        assert(took_part == participated(states@[i as int], start, now));
        if took_part {
            readied = readied + 1;
        }
    }
    if readied == n {
        let ghost before = states@;
        for i in 0..n
            invariant
                n == states.len(),
                n == before.len(),
                all_participated(before, start, now),
                forall|j: int| 0 <= j < i ==> #[trigger] states@[j] == credited(before[j], start),
                forall|j: int| i <= j < n ==> #[trigger] states@[j] == before[j],
        {
            let mut state = states[i];
            let ready_time = match state.last_ready_time {
                Some(t) => t,
                None => start,
            };
            assert(participated(before[i as int], start, now));
            state.total_ready_check_time = state.total_ready_check_time.saturating_add(ready_time - start);
            states.set(i, state);
        }
        assert(states@ =~= before.map_values(|m: SquadMemberState| credited(m, start)));
    }
}

/// The members of the squad, as two parallel vectors.
struct Roster {
    names: Vec<String>,
    states: Vec<SquadMemberState>,
}

impl View for Roster {
    type V = Map<Seq<char>, SquadMemberState>;

    closed spec fn view(&self) -> Map<Seq<char>, SquadMemberState> {
        roster_view(self.names@, self.states@)
    }
}

impl Roster {
    /// Names and states line up, names are distinct, and a ready member has
    /// a ready time.
    spec fn wf(&self) -> bool {
        &&& self.names.len() == self.states.len()
        &&& keys_unique(self.names@)
        &&& forall|i: int|
            0 <= i < self.states.len() && (#[trigger] self.states@[i]).is_ready
                ==> self.states@[i].last_ready_time is Some
    }

    fn empty() -> (r: Self)
        ensures
            r.wf(),
            r@ == Map::<Seq<char>, SquadMemberState>::empty(),
    {
        let r = Roster { names: Vec::new(), states: Vec::new() };
        assert(r@ =~= Map::<Seq<char>, SquadMemberState>::empty());
        r
    }

    /// Applies one membership record at `now`.
    fn apply_update(&mut self, self_account_name: &String, update: &UserInfo, now: u64)
        requires
            old(self).wf(),
        ensures
            final(self).wf(),
            final(self)@ == after_record(self_account_name@, old(self)@, *update, now),
    {
        let account_name = match &update.account_name {
            Some(x) => x,
            None => return ,
        };
        proof {
            lemma_roster_view(self.names@, self.states@);
        }
        match update.role {
            UserRole::SquadLeader | UserRole::Lieutenant | UserRole::Member => {
                let idx: usize;
                let flipped: bool;
                match self.find_member(account_name) {
                    Some(i) => {
                        let mut user = self.states[i];
                        let old_ready_status = user.is_ready;
                        user.update_user(update);
                        flipped = old_ready_status != user.is_ready;
                        proof {
                            lemma_roster_view_at(self.names@, self.states@, i as int);
                            lemma_roster_view_set(self.names@, self.states@, i as int, user);
                        }
                        self.states.set(i, user);
                        idx = i;
                    },
                    None => {
                        let user = SquadMemberState::new(
                            update.join_time,
                            update.role,
                            update.subgroup,
                            update.ready_status,
                        );
                        proof {
                            lemma_roster_view_push(self.names@, self.states@, *account_name, user);
                        }
                        self.names.push(account_name.clone());
                        self.states.push(user);
                        idx = self.states.len() - 1;
                        flipped = update.ready_status;
                    },
                }
                assert(self.names@[idx as int]@ == account_name@);
                if flipped {
                    let mut user = self.states[idx];
                    let start = handle_ready_status_changed(&mut user, now);
                    proof {
                        lemma_roster_view_set(self.names@, self.states@, idx as int, user);
                    }
                    self.states.set(idx, user);
                    if let Some(start) = start {
                        proof {
                            lemma_roster_view_credit(self.names@, self.states@, start, now);
                        }
                        handle_ready_check_finished(&mut self.states, start, now);
                    }
                }
            },
            UserRole::NoRole => {
                if *account_name == *self_account_name {
                    self.names.clear();
                    self.states.clear();
                    assert(self@ =~= Map::<Seq<char>, SquadMemberState>::empty());
                } else {
                    match self.find_member(account_name) {
                        Some(i) => {
                            proof {
                                lemma_roster_view_remove(self.names@, self.states@, i as int);
                            }
                            self.names.remove(i);
                            self.states.remove(i);
                        },
                        None => {
                            assert(self@ =~= self@.remove(account_name@));
                        },
                    }
                }
            },
            UserRole::Invited | UserRole::Applied | UserRole::Invalid => {},
        }
    }

    fn squad_update(&mut self, self_account_name: &String, users: &Vec<UserInfo>, now: u64)
        requires
            old(self).wf(),
        ensures
            final(self).wf(),
            final(self)@ == after_batch(self_account_name@, old(self)@, users@, now),
    {
        let n = users.len();
        for i in 0..n
            invariant
                n == users.len(),
                self.wf(),
                self@ == after_batch(self_account_name@, old(self)@, users@.take(i as int), now),
        {
            assert(users@.take(i + 1).drop_last() == users@.take(i as int));
            self.apply_update(self_account_name, &users[i], now);
        }
        assert(users@.take(n as int) == users@);
    }

    fn get_squad_members(&self) -> (r: Vec<(String, SquadMemberState)>)
        requires
            self.wf(),
        ensures
            keys_unique(r@.map_values(|p: (String, SquadMemberState)| p.0)),
            roster_view(
                r@.map_values(|p: (String, SquadMemberState)| p.0),
                r@.map_values(|p: (String, SquadMemberState)| p.1),
            ) == self@,
    {
        let mut r: Vec<(String, SquadMemberState)> = Vec::new();
        let n = self.names.len();
        for i in 0..n
            invariant
                n == self.names.len(),
                self.wf(),
                r.len() == i,
                forall|j: int| 0 <= j < i ==> #[trigger] r@[j] == (self.names@[j], self.states@[j]),
        {
            r.push((self.names[i].clone(), self.states[i]));
        }
        assert(r@.map_values(|p: (String, SquadMemberState)| p.0) =~= self.names@);
        assert(r@.map_values(|p: (String, SquadMemberState)| p.1) =~= self.states@);
        r
    }

    spec fn current_round_start(&self) -> Option<u64> {
        let i = choose|i: int|
            0 <= i < self.states.len() && (#[trigger] self.states@[i]).role == UserRole::SquadLeader
                && self.states@[i].is_ready && forall|j: int|
                0 <= j < i ==> !((#[trigger] self.states@[j]).role == UserRole::SquadLeader
                    && self.states@[j].is_ready);
        if exists|i: int|
            0 <= i < self.states.len() && (#[trigger] self.states@[i]).role == UserRole::SquadLeader
                && self.states@[i].is_ready {
            self.states@[i].last_ready_time
        } else {
            None
        }
    }

    fn current_ready_check_start(&self) -> (r: Option<u64>)
        requires
            self.wf(),
        ensures
            r == self.current_round_start(),
            r is Some <==> exists|k: Seq<char>|
                #[trigger] self@.contains_key(k) && self@[k].role == UserRole::SquadLeader
                    && self@[k].is_ready,
            r matches Some(t) ==> exists|k: Seq<char>|
                #[trigger] self@.contains_key(k) && self@[k].role == UserRole::SquadLeader
                    && self@[k].is_ready && self@[k].last_ready_time == Some(t),
    {
        proof {
            lemma_roster_view(self.names@, self.states@);
        }
        let n = self.states.len();
        for i in 0..n
            invariant
                n == self.states.len(),
                self.wf(),
                forall|j: int|
                    0 <= j < i ==> !((#[trigger] self.states@[j]).role == UserRole::SquadLeader
                        && self.states@[j].is_ready),
        {
            let state = self.states[i];
            if state.role == UserRole::SquadLeader && state.is_ready {
                assert(self@.contains_key(self.names@[i as int]@));
                return state.last_ready_time;
            }
        }
        assert forall|k: Seq<char>| #[trigger] self@.contains_key(k) implies !(self@[k].role
            == UserRole::SquadLeader && self@[k].is_ready) by {
            let i = choose|i: int| 0 <= i < self.names.len() && #[trigger] self.names@[i]@ == k;
        }
        None
    }

    fn setup_mock_data(&mut self, now: u64)
        requires
            old(self).wf(),
            old(self)@ == Map::<Seq<char>, SquadMemberState>::empty(),
            now >= 10_000,
        ensures
            final(self).wf(),
            final(self)@ == Map::<Seq<char>, SquadMemberState>::empty().insert(
                "Alice"@,
                SquadMemberState {
                    total_ready_check_time: 100_000,
                    ..SquadMemberState::spec_new(100, UserRole::Member, 0, false)
                },
            ).insert(
                "Bob"@,
                SquadMemberState {
                    last_ready_time: Some(now),
                    total_ready_check_time: 200_000,
                    ..SquadMemberState::spec_new(100, UserRole::SquadLeader, 0, true)
                },
            ).insert(
                "Charlie"@,
                SquadMemberState {
                    last_ready_time: Some((now - 10_000) as u64),
                    total_ready_check_time: 100_000,
                    ..SquadMemberState::spec_new(100, UserRole::Member, 0, true)
                },
            ),
    {
        proof {
            reveal_strlit("Alice");
            reveal_strlit("Bob");
            reveal_strlit("Charlie");
            if self.names.len() > 0 {
                lemma_roster_view_at(self.names@, self.states@, 0);
            }
        }
        let mut alice = SquadMemberState::new(100, UserRole::Member, 0, false);
        alice.total_ready_check_time = 100_000;
        let mut bob = SquadMemberState::new(100, UserRole::SquadLeader, 0, true);
        bob.last_ready_time = Some(now);
        bob.total_ready_check_time = 200_000;
        let mut charlie = SquadMemberState::new(100, UserRole::Member, 0, true);
        charlie.last_ready_time = Some(now - 10_000);
        charlie.total_ready_check_time = 100_000;
        let ghost v0 = self@;
        let alice_name = "Alice".to_string();
        proof {
            lemma_roster_view_push(self.names@, self.states@, alice_name, alice);
        }
        self.names.push(alice_name);
        self.states.push(alice);
        let bob_name = "Bob".to_string();
        proof {
            assert("Bob"@.len() != "Alice"@.len());
            assert(self@ == v0.insert("Alice"@, alice));
            lemma_roster_view_push(self.names@, self.states@, bob_name, bob);
        }
        self.names.push(bob_name);
        self.states.push(bob);
        let charlie_name = "Charlie".to_string();
        proof {
            assert("Charlie"@.len() != "Alice"@.len() && "Charlie"@.len() != "Bob"@.len());
            assert(self@ == v0.insert("Alice"@, alice).insert("Bob"@, bob));
            lemma_roster_view_push(self.names@, self.states@, charlie_name, charlie);
        }
        self.names.push(charlie_name);
        self.states.push(charlie);
        assert(v0 =~= Map::<Seq<char>, SquadMemberState>::empty());
    }

    fn find_member(&self, account_name: &String) -> (r: Option<usize>)
        requires
            self.wf(),
        ensures
            match r {
                Some(i) => i < self.names.len() && self.names@[i as int]@ == account_name@,
                None => !self@.contains_key(account_name@),
            },
    {
        proof {
            lemma_roster_view(self.names@, self.states@);
        }
        let n = self.names.len();
        for i in 0..n
            invariant
                n == self.names.len(),
                forall|j: int| 0 <= j < i ==> self.names@[j]@ != account_name@,
        {
            if self.names[i] == *account_name {
                return Some(i);
            }
        }
        None
    }
}

/// Tracks the squad roster and accumulates each member's ready-check time.
pub struct SquadTracker {
    self_account_name: String,
    roster: Roster,
}

impl View for SquadTracker {
    type V = Map<Seq<char>, SquadMemberState>;

    closed spec fn view(&self) -> Map<Seq<char>, SquadMemberState> {
        self.roster@
    }
}

impl SquadTracker {
    #[verifier::type_invariant]
    spec fn inv(&self) -> bool {
        self.roster.wf()
    }

    /// The account of the user running the tracker.
    pub closed spec fn self_name(&self) -> Seq<char> {
        self.self_account_name@
    }

    /// The start of the ready check now running, as `current_ready_check_start`
    /// finds it.
    pub closed spec fn current_round_start(&self) -> Option<u64> {
        self.roster.current_round_start()
    }

    /// An empty roster for the user `self_account_name`.
    pub fn new(self_account_name: &str) -> (r: Self)
        ensures
            r@ == Map::<Seq<char>, SquadMemberState>::empty(),
            r.self_name() == self_account_name@,
    {
        SquadTracker { self_account_name: self_account_name.to_string(), roster: Roster::empty() }
    }

    /// Applies a batch of membership records, in order, all at the instant
    /// `now` captured once for the batch.
    pub fn squad_update(&mut self, users: &Vec<UserInfo>, now: u64)
        ensures
            final(self).self_name() == old(self).self_name(),
            final(self)@ == after_batch(old(self).self_name(), old(self)@, users@, now),
    {
        proof {
            use_type_invariant(&*self);
        }
        let mut roster = Roster::empty();
        std::mem::swap(&mut roster, &mut self.roster);
        roster.squad_update(&self.self_account_name, users, now);
        self.roster = roster;
    }

    /// A snapshot of the roster: each member's account name with their state.
    pub fn get_squad_members(&self) -> (r: Vec<(String, SquadMemberState)>)
        ensures
            keys_unique(r@.map_values(|p: (String, SquadMemberState)| p.0)),
            roster_view(
                r@.map_values(|p: (String, SquadMemberState)| p.0),
                r@.map_values(|p: (String, SquadMemberState)| p.1),
            ) == self@,
    {
        proof {
            use_type_invariant(self);
        }
        self.roster.get_squad_members()
    }

    /// The start of the ready check now running: the ready time of a squad
    /// leader who is ready, if there is one.
    pub fn current_ready_check_start(&self) -> (r: Option<u64>)
        ensures
            r == self.current_round_start(),
            r is Some <==> exists|k: Seq<char>|
                #[trigger] self@.contains_key(k) && self@[k].role == UserRole::SquadLeader
                    && self@[k].is_ready,
            r matches Some(t) ==> exists|k: Seq<char>|
                #[trigger] self@.contains_key(k) && self@[k].role == UserRole::SquadLeader
                    && self@[k].is_ready && self@[k].last_ready_time == Some(t),
    {
        proof {
            use_type_invariant(self);
        }
        self.roster.current_ready_check_start()
    }

    /// Fills an empty roster with three sample members, for trying out a
    /// display without a host: a member who never readied, a squad leader
    /// who readied at `now`, and a member who readied ten seconds earlier.
    pub fn setup_mock_data(&mut self, now: u64)
        requires
            old(self)@ == Map::<Seq<char>, SquadMemberState>::empty(),
            now >= 10_000,
        ensures
            final(self).self_name() == old(self).self_name(),
            final(self)@ == Map::<Seq<char>, SquadMemberState>::empty().insert(
                "Alice"@,
                SquadMemberState {
                    total_ready_check_time: 100_000,
                    ..SquadMemberState::spec_new(100, UserRole::Member, 0, false)
                },
            ).insert(
                "Bob"@,
                SquadMemberState {
                    last_ready_time: Some(now),
                    total_ready_check_time: 200_000,
                    ..SquadMemberState::spec_new(100, UserRole::SquadLeader, 0, true)
                },
            ).insert(
                "Charlie"@,
                SquadMemberState {
                    last_ready_time: Some((now - 10_000) as u64),
                    total_ready_check_time: 100_000,
                    ..SquadMemberState::spec_new(100, UserRole::Member, 0, true)
                },
            ),
    {
        proof {
            use_type_invariant(&*self);
        }
        let mut roster = Roster::empty();
        std::mem::swap(&mut roster, &mut self.roster);
        roster.setup_mock_data(now);
        self.roster = roster;
    }
}

} // verus!

//! Seeding the store: events and round capacities from the rows of a
//! spreadsheet, users from the records of a list.

use vstd::prelude::*;
use vstd::string::StrSliceExecFns;
use crate::entity::{event, round_max_users, user};
use crate::error::ServiceError;
use crate::store::{
    has_capacity, has_email, has_event, next_event_id, next_user_id, Store, StoreView,
};

verus! {

/// The capacity of one event in one round, as the sheet gives it.
#[derive(Clone, Copy, Debug, PartialEq, Eq, Structural)]
pub struct XlsxRoundMaxUsers {
    pub round: i32,
    pub event_id: i32,
    pub max_users: i32,
}

/// One event of the sheet with its capacities for the four rounds.
#[derive(Debug, Clone, PartialEq, Eq)]
pub struct XlsxEvent {
    pub name: String,
    pub room: String,
    pub zone: String,
    pub floor: String,
    pub minimum_section: i32,
    pub round_max_users: Vec<XlsxRoundMaxUsers>,
}

/// One row of the sheet, each cell as text: zone, floor, room, number of
/// seats, name of the activity, the marks for the first and the second day,
/// and the turn.
#[derive(Debug, Clone, PartialEq, Eq)]
pub struct XlsxRow {
    pub zone: String,
    pub floor: String,
    pub room: String,
    pub max_users: String,
    pub name: String,
    pub first_day: String,
    pub second_day: String,
    pub turn: String,
}

/// One user of the list.
#[derive(Debug, Clone, PartialEq, Eq)]
pub struct User {
    pub name: String,
    pub email: String,
    pub section: i32,
}

/// What a day's cell says of the two rounds of that day.
#[derive(Clone, Copy, Debug, PartialEq, Eq, Structural)]
pub enum DayMark {
    /// `XX`: the event runs in both rounds.
    Both,
    /// `X`: the event runs in the one round that the turn names.
    One,
    /// Anything else: the event does not run on that day.
    Neither,
}

/// The mark that the text of a day's cell stands for.
pub open spec fn day_mark(text: Seq<char>) -> DayMark {
    if text == seq!['X', 'X'] {
        DayMark::Both
    } else if text == seq!['X'] {
        DayMark::One
    } else {
        DayMark::Neither
    }
}

/// The seats in the round at `slot` (1 or 2) of a day: all seats where the
/// event runs in both rounds or in this one, none where it does not run.
pub open spec fn seats(mark: DayMark, slot: int, max_users: i32, turn: Option<i32>) -> i32 {
    match mark {
        DayMark::Both => max_users,
        DayMark::One => if turn == Some(slot as i32) {
            max_users
        } else {
            0
        },
        DayMark::Neither => 0,
    }
}

/// The capacities of an event for the four rounds: rounds 1 and 2 on the
/// first day, rounds 3 and 4 on the second.
pub open spec fn round_limits(
    event_id: i32,
    max_users: i32,
    first_day: DayMark,
    second_day: DayMark,
    turn: Option<i32>,
) -> Seq<XlsxRoundMaxUsers> {
    seq![
        XlsxRoundMaxUsers { round: 1, event_id, max_users: seats(first_day, 1, max_users, turn) },
        XlsxRoundMaxUsers { round: 2, event_id, max_users: seats(first_day, 2, max_users, turn) },
        XlsxRoundMaxUsers { round: 3, event_id, max_users: seats(second_day, 1, max_users, turn) },
        XlsxRoundMaxUsers { round: 4, event_id, max_users: seats(second_day, 2, max_users, turn) },
    ]
}

/// What `str::parse::<i32>` makes of a text: the number that it reads, or
/// `None` where it reports an error.
pub uninterp spec fn parsed_number(text: Seq<char>) -> Option<i32>;

/// Reads a number through `str::parse::<i32>`, with `None` for its error.
#[verifier::external_body]
pub(crate) fn parse_number(text: &str) -> (number: Option<i32>)
    ensures
        number == parsed_number(text@),
{
    text.parse::<i32>().ok()
}

/// Reads the mark of a day's cell.
pub fn read_day_mark(text: &str) -> (mark: DayMark)
    ensures
        mark == day_mark(text@),
{
    let n = text.unicode_len();
    if n == 2 && text.get_char(0) == 'X' && text.get_char(1) == 'X' {
        assert(text@ =~= seq!['X', 'X']);
        DayMark::Both
    } else if n == 1 && text.get_char(0) == 'X' {
        assert(text@ =~= seq!['X']);
        DayMark::One
    } else {
        proof {
            if text@ == seq!['X', 'X'] {
                assert(text@.len() == 2 && text@[0] == 'X' && text@[1] == 'X');
            }
            if text@ == seq!['X'] {
                assert(text@.len() == 1 && text@[0] == 'X');
            }
        }
        DayMark::Neither
    }
}

/// The seats in the round at `slot` of a day.
fn seats_in(mark: DayMark, slot: i32, max_users: i32, turn: Option<i32>) -> (n: i32)
    ensures
        n == seats(mark, slot as int, max_users, turn),
{
    match mark {
        DayMark::Both => max_users,
        DayMark::One => match turn {
            Some(t) => if t == slot {
                max_users
            } else {
                0
            },
            None => 0,
        },
        DayMark::Neither => 0,
    }
}

/// The capacities of an event for the four rounds, from the number of
/// seats, the marks of the two days and the turn.
pub fn limits_for(
    event_id: i32,
    max_users: i32,
    first_day: DayMark,
    second_day: DayMark,
    turn: Option<i32>,
) -> (limits: Vec<XlsxRoundMaxUsers>)
    ensures
        limits@ == round_limits(event_id, max_users, first_day, second_day, turn),
{
    let mut limits: Vec<XlsxRoundMaxUsers> = Vec::with_capacity(4);
    let days = [first_day, second_day];
    let mut day: usize = 0;
    while day < 2
        invariant
            day <= 2,
            days@ == seq![first_day, second_day],
            limits@.len() == 2 * day,
            limits@ == round_limits(event_id, max_users, first_day, second_day, turn).take(
                2 * day,
            ),
        decreases 2 - day,
    {
        let mark = days[day];
        let first_round: i32 = (day as i32) * 2 + 1;
        limits.push(
            XlsxRoundMaxUsers {
                round: first_round,
                event_id,
                max_users: seats_in(mark, 1, max_users, turn),
            },
        );
        limits.push(
            XlsxRoundMaxUsers {
                round: first_round + 1,
                event_id,
                max_users: seats_in(mark, 2, max_users, turn),
            },
        );
        day += 1;
    }
    assert(round_limits(event_id, max_users, first_day, second_day, turn).take(4)
        == round_limits(event_id, max_users, first_day, second_day, turn));
    limits
}

/// Whether `event` is what the row says of the event `event_id`, given the
/// numbers that were read from the row.
pub open spec fn event_matches(
    event: XlsxEvent,
    event_id: i32,
    row: XlsxRow,
    max_users: i32,
    turn: Option<i32>,
) -> bool {
    &&& event.name == row.name
    &&& event.room == row.room
    &&& event.zone == row.zone
    &&& event.floor == row.floor
    &&& event.minimum_section == 1
    &&& event.round_max_users@ == round_limits(
        event_id,
        max_users,
        day_mark(row.first_day@),
        day_mark(row.second_day@),
        turn,
    )
}

/// The event that a row describes, given the numbers that were read from
/// it: the texts are taken over, every user may attend, and the capacities
/// follow from the marks of the two days.
pub fn event_from_numbers(event_id: i32, row: XlsxRow, max_users: i32, turn: Option<i32>) -> (event:
    XlsxEvent)
    ensures
        event_matches(event, event_id, row, max_users, turn),
{
    let first_day = read_day_mark(row.first_day.as_str());
    let second_day = read_day_mark(row.second_day.as_str());
    let round_max_users = limits_for(event_id, max_users, first_day, second_day, turn);
    XlsxEvent {
        name: row.name,
        room: row.room,
        zone: row.zone,
        floor: row.floor,
        minimum_section: 1,
        round_max_users,
    }
}

/// The numbers of a row: the seats, and the turn where one is given.
#[derive(Clone, Copy, Debug, PartialEq, Eq, Structural)]
pub struct RowNumbers {
    pub max_users: i32,
    pub turn: Option<i32>,
}

/// The numbers of a row, given what was read from the cell of the seats and,
/// where the cell of the turn is not empty, from that cell. `None` where a
/// cell that should hold a number does not.
pub open spec fn numbers_from(
    max_users: Option<i32>,
    turn_is_empty: bool,
    turn: Option<i32>,
) -> Option<RowNumbers> {
    match max_users {
        None => None,
        Some(max_users) => if turn_is_empty {
            Some(RowNumbers { max_users, turn: None })
        } else {
            match turn {
                None => None,
                Some(turn) => Some(RowNumbers { max_users, turn: Some(turn) }),
            }
        },
    }
}

/// The numbers of a row.
pub open spec fn row_numbers(row: XlsxRow) -> Option<RowNumbers> {
    numbers_from(parsed_number(row.max_users@), row.turn@.len() == 0, parsed_number(row.turn@))
}

/// Puts together the numbers of a row from what was read from its cells.
pub fn numbers_of(max_users: Option<i32>, turn_is_empty: bool, turn: Option<i32>) -> (numbers:
    Option<RowNumbers>)
    ensures
        numbers == numbers_from(max_users, turn_is_empty, turn),
{
    match max_users {
        None => None,
        Some(max_users) => if turn_is_empty {
            Some(RowNumbers { max_users, turn: None })
        } else {
            match turn {
                None => None,
                Some(turn) => Some(RowNumbers { max_users, turn: Some(turn) }),
            }
        },
    }
}

/// Reads the numbers of a row.
pub fn read_numbers(row: &XlsxRow) -> (numbers: Option<RowNumbers>)
    ensures
        numbers == row_numbers(*row),
{
    let max_users = parse_number(row.max_users.as_str());
    let turn = parse_number(row.turn.as_str());
    numbers_of(max_users, row.turn.as_str().is_empty(), turn)
}

/// Whether `events` are what `rows` describe: the row at position `k`
/// describes the event with identity `k + 1`.
pub open spec fn events_match(events: Seq<XlsxEvent>, rows: Seq<XlsxRow>) -> bool {
    &&& events.len() == rows.len()
    &&& forall|k: int|
        0 <= k < rows.len() ==> {
            &&& row_numbers(#[trigger] rows[k]) is Some
            &&& event_matches(
                events[k],
                (k + 1) as i32,
                rows[k],
                row_numbers(rows[k]).unwrap().max_users,
                row_numbers(rows[k]).unwrap().turn,
            )
        }
}

/// Whether every row can be read: there are no more rows than identities,
/// and every cell that should hold a number does.
pub open spec fn rows_readable(rows: Seq<XlsxRow>) -> bool {
    &&& rows.len() <= i32::MAX
    &&& forall|k: int| 0 <= k < rows.len() ==> row_numbers(#[trigger] rows[k]) is Some
}

/// Turns the rows of the sheet into events, the row at position `k` into the
/// event with identity `k + 1`. `None` where a row cannot be read.
pub fn parse_xlsx(rows: Vec<XlsxRow>) -> (events: Option<Vec<XlsxEvent>>)
    ensures
        events is Some <==> rows_readable(rows@),
        events matches Some(found) ==> events_match(found@, rows@),
{
    if rows.len() > 0x7fff_ffff {
        return None;
    }
    let ghost all = rows@;
    let mut events: Vec<XlsxEvent> = Vec::with_capacity(rows.len());
    for row in it: rows.into_iter()
        invariant
            it.seq() == all,
            all.len() <= i32::MAX,
            events_match(events@, all.take(it.index() as int)),
    {
        let ghost k = it.index() as int;
        let event_id = (events.len() + 1) as i32;
        match read_numbers(&row) {
            None => {
                return None;
            },
            Some(numbers) => {
                let ghost earlier = events@;
                let event = event_from_numbers(event_id, row, numbers.max_users, numbers.turn);
                events.push(event);
                proof {
                    let seen = all.take(k + 1);
                    assert forall|j: int| 0 <= j < seen.len() implies {
                        &&& row_numbers(#[trigger] seen[j]) is Some
                        &&& event_matches(
                            events@[j],
                            (j + 1) as i32,
                            seen[j],
                            row_numbers(seen[j]).unwrap().max_users,
                            row_numbers(seen[j]).unwrap().turn,
                        )
                    } by {
                        if j < k {
                            assert(all.take(k)[j] == seen[j]);
                            assert(events@[j] == earlier[j]);
                        }
                    }
                }
            },
        }
    }
    proof {
        assert(all.take(all.len() as int) == all);
    }
    Some(events)
}

/// The record that the store keeps of an event of the sheet, under the
/// identity `id`.
pub open spec fn event_record(id: i32, event: XlsxEvent) -> event::Model {
    event::Model {
        id,
        name: event.name,
        room: event.room,
        zone: event.zone,
        floor: event.floor,
        minimum_section: event.minimum_section,
    }
}

/// The store after the events were recorded one after the other, each under
/// the next free identity. `None` where the store has no identity left for
/// one of them.
pub open spec fn with_events(db: StoreView, events: Seq<XlsxEvent>) -> Option<StoreView>
    decreases events.len(),
{
    if events.len() == 0 {
        Some(db)
    } else {
        match with_events(db, events.drop_last()) {
            None => None,
            Some(before) => if next_event_id(before.events) > i32::MAX {
                None
            } else {
                Some(
                    StoreView {
                        events: before.events.push(
                            event_record(next_event_id(before.events) as i32, events.last()),
                        ),
                        ..before
                    },
                )
            },
        }
    }
}

/// The capacities of all events of the sheet, event after event.
pub open spec fn all_limits(events: Seq<XlsxEvent>) -> Seq<XlsxRoundMaxUsers>
    decreases events.len(),
{
    if events.len() == 0 {
        Seq::empty()
    } else {
        all_limits(events.drop_last()) + events.last().round_max_users@
    }
}

/// The record that the store keeps of a capacity of the sheet.
pub open spec fn capacity_record(limit: XlsxRoundMaxUsers) -> round_max_users::Model {
    round_max_users::Model {
        round: limit.round,
        event_id: limit.event_id,
        max_users: limit.max_users,
    }
}

/// The store after the capacities were recorded one after the other.
/// `None` where the store refuses one: its event does not exist, or the
/// event already has a capacity for the round.
pub open spec fn with_capacities(db: StoreView, limits: Seq<XlsxRoundMaxUsers>) -> Option<
    StoreView,
>
    decreases limits.len(),
{
    if limits.len() == 0 {
        Some(db)
    } else {
        match with_capacities(db, limits.drop_last()) {
            None => None,
            Some(before) => if !has_event(before.events, limits.last().event_id) || has_capacity(
                before.round_max_users,
                limits.last().event_id,
                limits.last().round,
            ) {
                None
            } else {
                Some(
                    StoreView {
                        round_max_users: before.round_max_users.push(
                            capacity_record(limits.last()),
                        ),
                        ..before
                    },
                )
            },
        }
    }
}

/// The store after the sheet was imported: first all events, then all
/// their capacities. `None` where the store refuses any of them.
pub open spec fn with_sheet(db: StoreView, events: Seq<XlsxEvent>) -> Option<StoreView> {
    match with_events(db, events) {
        None => None,
        Some(recorded) => with_capacities(recorded, all_limits(events)),
    }
}

/// The record that the store keeps of a user of the list, under the
/// identity `id`: no class, no administrator.
pub open spec fn user_record(id: i32, user: User) -> user::Model {
    user::Model {
        id,
        name: Some(user.name),
        email: user.email,
        interactive_done: false,
        section: user.section,
        class: None,
        admin: false,
    }
}

/// The store after the users were recorded one after the other, each under
/// the next free identity. `None` where the store refuses one: its email
/// address is taken, or no identity is left.
pub open spec fn with_users(db: StoreView, users: Seq<User>) -> Option<StoreView>
    decreases users.len(),
{
    if users.len() == 0 {
        Some(db)
    } else {
        match with_users(db, users.drop_last()) {
            None => None,
            Some(before) => if has_email(before.users, users.last().email@) || next_user_id(
                before.users,
            ) > i32::MAX {
                None
            } else {
                Some(
                    StoreView {
                        users: before.users.push(
                            user_record(next_user_id(before.users) as i32, users.last()),
                        ),
                        ..before
                    },
                )
            },
        }
    }
}

/// Once the store has refused an event, it has refused the sheet.
pub proof fn lemma_events_refused(db: StoreView, events: Seq<XlsxEvent>, k: int)
    requires
        0 <= k <= events.len(),
        with_events(db, events.take(k)) is None,
    ensures
        with_events(db, events) is None,
    decreases events.len(),
{
    if k < events.len() {
        assert(events.drop_last().take(k) == events.take(k));
        lemma_events_refused(db, events.drop_last(), k);
    } else {
        assert(events.take(k) == events);
    }
}

/// Once the store has refused a capacity, it has refused them all.
pub proof fn lemma_capacities_refused(db: StoreView, limits: Seq<XlsxRoundMaxUsers>, k: int)
    requires
        0 <= k <= limits.len(),
        with_capacities(db, limits.take(k)) is None,
    ensures
        with_capacities(db, limits) is None,
    decreases limits.len(),
{
    if k < limits.len() {
        assert(limits.drop_last().take(k) == limits.take(k));
        lemma_capacities_refused(db, limits.drop_last(), k);
    } else {
        assert(limits.take(k) == limits);
    }
}

/// Once the store has refused a user, it has refused the list.
pub proof fn lemma_users_refused(db: StoreView, users: Seq<User>, k: int)
    requires
        0 <= k <= users.len(),
        with_users(db, users.take(k)) is None,
    ensures
        with_users(db, users) is None,
    decreases users.len(),
{
    if k < users.len() {
        assert(users.drop_last().take(k) == users.take(k));
        lemma_users_refused(db, users.drop_last(), k);
    } else {
        assert(users.take(k) == users);
    }
}

/// The capacities of all events, event after event.
pub fn collect_limits(events: &Vec<XlsxEvent>) -> (limits: Vec<XlsxRoundMaxUsers>)
    ensures
        limits@ == all_limits(events@),
{
    let mut limits: Vec<XlsxRoundMaxUsers> = Vec::new();
    let mut i: usize = 0;
    while i < events.len()
        invariant
            i <= events.len(),
            limits@ == all_limits(events@.take(i as int)),
        decreases events.len() - i,
    {
        let own = &events[i].round_max_users;
        let ghost before = limits@;
        let mut j: usize = 0;
        while j < own.len()
            invariant
                j <= own.len(),
                limits@ == before + own@.take(j as int),
            decreases own.len() - j,
        {
            limits.push(own[j]);
            proof {
                assert(own@.take(j + 1) == own@.take(j as int).push(own@[j as int]));
                assert(limits@ =~= before + own@.take(j + 1));
            }
            j += 1;
        }
        proof {
            assert(own@.take(own@.len() as int) == own@);
            assert(events@.take(i + 1).drop_last() == events@.take(i as int));
            assert(events@.take(i + 1).last() == events@[i as int]);
        }
        i += 1;
    }
    proof {
        assert(events@.take(events@.len() as int) == events@);
    }
    limits
}

/// Imports the sheet: records every event under the next free identity,
/// then every capacity. The import is made as a whole or not at all: where
/// the store refuses one record, it is left as it was.
pub fn import_events(db: &mut Store, events: &Vec<XlsxEvent>) -> (outcome: Result<
    (),
    ServiceError,
>)
    ensures
        match outcome {
            Ok(()) => with_sheet(old(db)@, events@) == Some(final(db)@),
            Err(e) => {
                &&& e == ServiceError::StoreUnavailable
                &&& with_sheet(old(db)@, events@) is None
                &&& final(db)@ == old(db)@
            },
        },
{
    let backup = db.clone();
    let mut i: usize = 0;
    while i < events.len()
        invariant
            i <= events.len(),
            backup@ == old(db)@,
            with_events(backup@, events@.take(i as int)) == Some(db@),
        decreases events.len() - i,
    {
        let event = &events[i];
        proof {
            assert(events@.take(i + 1).drop_last() == events@.take(i as int));
            assert(events@.take(i + 1).last() == events@[i as int]);
        }
        match db.insert_event(
            event.name.clone(),
            event.room.clone(),
            event.zone.clone(),
            event.floor.clone(),
            event.minimum_section,
        ) {
            Ok(_) => {},
            Err(e) => {
                proof {
                    lemma_events_refused(backup@, events@, i + 1);
                }
                *db = backup;
                return Err(e);
            },
        }
        i += 1;
    }
    proof {
        assert(events@.take(events@.len() as int) == events@);
    }
    let ghost recorded = db@;
    let limits = collect_limits(events);
    let mut k: usize = 0;
    while k < limits.len()
        invariant
            k <= limits.len(),
            backup@ == old(db)@,
            limits@ == all_limits(events@),
            with_events(backup@, events@) == Some(recorded),
            with_capacities(recorded, limits@.take(k as int)) == Some(db@),
        decreases limits.len() - k,
    {
        let limit = limits[k];
        proof {
            assert(limits@.take(k + 1).drop_last() == limits@.take(k as int));
            assert(limits@.take(k + 1).last() == limits@[k as int]);
        }
        match db.insert_round_max_users(
            round_max_users::Model {
                round: limit.round,
                event_id: limit.event_id,
                max_users: limit.max_users,
            },
        ) {
            Ok(()) => {},
            Err(e) => {
                proof {
                    lemma_capacities_refused(recorded, limits@, k + 1);
                }
                *db = backup;
                return Err(e);
            },
        }
        k += 1;
    }
    proof {
        assert(limits@.take(limits@.len() as int) == limits@);
    }
    Ok(())
}

/// Undoes the import of a sheet: removes all events and all capacities,
/// and with the events all subscriptions.
pub fn remove_events(db: &mut Store)
    ensures
        final(db)@ == (StoreView {
            events: Seq::empty(),
            event_users: Seq::empty(),
            round_max_users: Seq::empty(),
            ..old(db)@
        }),
{
    db.clear_events();
}

/// Imports the list of users: records every user under the next free
/// identity. The import is made as a whole or not at all: where the store
/// refuses one user, it is left as it was.
pub fn import_users(db: &mut Store, users: &Vec<User>) -> (outcome: Result<(), ServiceError>)
    ensures
        match outcome {
            Ok(()) => with_users(old(db)@, users@) == Some(final(db)@),
            Err(e) => {
                &&& e == ServiceError::StoreUnavailable
                &&& with_users(old(db)@, users@) is None
                &&& final(db)@ == old(db)@
            },
        },
{
    let backup = db.clone();
    let mut i: usize = 0;
    while i < users.len()
        invariant
            i <= users.len(),
            backup@ == old(db)@,
            with_users(backup@, users@.take(i as int)) == Some(db@),
        decreases users.len() - i,
    {
        let user = &users[i];
        proof {
            assert(users@.take(i + 1).drop_last() == users@.take(i as int));
            assert(users@.take(i + 1).last() == users@[i as int]);
        }
        match db.insert_user(Some(user.name.clone()), user.email.clone(), user.section, None, false) {
            Ok(_) => {},
            Err(e) => {
                proof {
                    lemma_users_refused(backup@, users@, i + 1);
                }
                *db = backup;
                return Err(e);
            },
        }
        i += 1;
    }
    proof {
        assert(users@.take(users@.len() as int) == users@);
    }
    Ok(())
}

/// Undoes the import of a list of users: removes all users, and with them
/// all subscriptions.
pub fn remove_users(db: &mut Store)
    ensures
        final(db)@ == (StoreView {
            users: Seq::empty(),
            event_users: Seq::empty(),
            ..old(db)@
        }),
{
    db.clear_users();
}

} // verus!

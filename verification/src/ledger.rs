//! The score ledger: entries, well-formedness, and the append-only operations.

use crate::sys;
use vstd::prelude::*;
use vstd::string::*;

verus! {

/// Character-by-character equality of two string slices.
pub fn str_eq(a: &str, b: &str) -> (r: bool)
    ensures
        r == (a@ == b@),
{
    let la = a.unicode_len();
    let lb = b.unicode_len();
    if la != lb {
        return false;
    }
    let mut i: usize = 0;
    while i < la
        invariant
            i <= la,
            la == a@.len() == b@.len(),
            forall|j: int| 0 <= j < i ==> a@[j] == b@[j],
        decreases la - i,
    {
        if a.get_char(i) != b.get_char(i) {
            return false;
        }
        i += 1;
    }
    proof {
        assert(a@ =~= b@);
    }
    true
}

/// ASCII upper-case letters fold to lower case; every other character is kept.
pub open spec fn lower_char(c: char) -> char {
    if 'A' <= c && c <= 'Z' {
        (((c as u8) + 32) as char)
    } else {
        c
    }
}

pub open spec fn spec_lower(s: Seq<char>) -> Seq<char> {
    s.map_values(|c: char| lower_char(c))
}

/// The ASCII-lower-cased copy of a string slice.
pub fn lower_str(s: &str) -> (r: String)
    ensures
        r@ == spec_lower(s@),
{
    let len = s.unicode_len();
    let mut out = String::new();
    let mut i: usize = 0;
    while i < len
        invariant
            i <= len,
            len == s@.len(),
            out@ =~= spec_lower(s@.take(i as int)),
        decreases len - i,
    {
        let c = s.get_char(i);
        let lc = if 'A' <= c && c <= 'Z' {
            ((c as u8) + 32) as char
        } else {
            c
        };
        sys::push_char(&mut out, lc);
        i += 1;
        proof {
            assert(out@ =~= spec_lower(s@.take(i as int)));
        }
    }
    proof {
        assert(s@.take(len as int) =~= s@);
    }
    out
}

/// One recorded outcome: a play or an item use.
#[derive(Debug)]
pub struct Entry {
    pub user: String,
    pub command: String,
    pub score: u32,
    pub success: bool,
    pub health: i32,
    pub timestamp: u64,
}

/// The mathematical model of an entry: its fields as plain values.
#[verifier::ext_equal]
pub ghost struct EntryModel {
    pub user: Seq<char>,
    pub command: Seq<char>,
    pub score: u32,
    pub success: bool,
    pub health: i32,
    pub timestamp: u64,
}

impl View for Entry {
    type V = EntryModel;

    open spec fn view(&self) -> EntryModel {
        EntryModel {
            user: self.user@,
            command: self.command@,
            score: self.score,
            success: self.success,
            health: self.health,
            timestamp: self.timestamp,
        }
    }
}

/// Health is a clamped gauge: every entry keeps it between 0 and 100.
pub open spec fn wf_entry(e: EntryModel) -> bool {
    0 <= e.health <= 100
}

/// Every entry of a well-formed ledger keeps its health in bounds.
pub open spec fn wf_entries(entries: Seq<EntryModel>) -> bool {
    forall|i: int| 0 <= i < entries.len() ==> wf_entry(#[trigger] entries[i])
}

/// A copy of an entry, field by field.
pub fn clone_entry(e: &Entry) -> (r: Entry)
    ensures
        r@ == e@,
{
    Entry {
        user: e.user.clone(),
        command: e.command.clone(),
        score: e.score,
        success: e.success,
        health: e.health,
        timestamp: e.timestamp,
    }
}

/// The most recent entry recorded for the given user, if any.
pub open spec fn last_entry_of(entries: Seq<EntryModel>, user: Seq<char>) -> Option<EntryModel>
    decreases entries.len(),
{
    if entries.len() == 0 {
        None
    } else if entries.last().user == user {
        Some(entries.last())
    } else {
        last_entry_of(entries.drop_last(), user)
    }
}

/// The one-day-window streak rule: 10 points when the user's most recent
/// entry falls on the calendar day (86400-second bucket) exactly one before
/// the current one; a gap of zero or of two or more days earns nothing.
pub open spec fn spec_streak_bonus(entries: Seq<EntryModel>, user: Seq<char>, t: u64) -> u32 {
    match last_entry_of(entries, user) {
        None => 0u32,
        Some(e) => if t / 86400 == e.timestamp / 86400 + 1 {
            10u32
        } else {
            0u32
        },
    }
}

/// The fixed item table, looked up case-insensitively: the health each known
/// item restores.
pub open spec fn spec_item_bonus(item: Seq<char>) -> Option<u32> {
    let l = spec_lower(item);
    if l == "medkit"@ {
        Some(30u32)
    } else if l == "potion"@ {
        Some(20u32)
    } else if l == "bandage"@ {
        Some(10u32)
    } else {
        None
    }
}

/// An item use can fail only on the user's input.
#[derive(Debug, PartialEq, Eq, Structural)]
pub enum ItemError {
    UnknownItem,
}

/// Builds the entry one play produces, from the drawn contributions: the
/// build speed, the success roll (out of ten; seven of the ten outcomes
/// succeed), the creativity points, and the streak bonus.
pub fn play_entry(
    user: &str,
    command: &str,
    speed: u32,
    roll: u32,
    creativity: u32,
    streak: u32,
    t: u64,
) -> (e: Entry)
    requires
        1 <= speed <= 50,
        roll <= 9,
        creativity <= 20,
        streak <= 10,
    ensures
        e@.user == user@,
        e@.command == command@,
        e@.success == (roll < 7),
        e@.score == speed + (if roll < 7 { 30u32 } else { 0u32 }) + creativity + streak,
        e@.health == (if roll < 7 { 100int } else { 80int }),
        e@.timestamp == t,
        wf_entry(e@),
{
    let success_points: u32 = if roll < 7 { 30 } else { 0 };
    let health: i32 = if roll < 7 { 100 } else { 80 };
    Entry {
        user: user.to_owned(),
        command: command.to_owned(),
        score: speed + success_points + creativity + streak,
        success: roll < 7,
        health,
        timestamp: t,
    }
}

/// What one play produced: the appended entry together with the four
/// contributions its score is the sum of.
pub struct PlayOutcome {
    pub entry: Entry,
    pub speed: u32,
    pub success_points: u32,
    pub creativity: u32,
    pub streak: u32,
}

/// The models of a sequence of entries, in order.
pub open spec fn models(s: Seq<Entry>) -> Seq<EntryModel> {
    s.map_values(|e: Entry| e@)
}

/// The ordered history of all recorded outcomes.
pub struct Ledger {
    pub entries: Vec<Entry>,
}

impl View for Ledger {
    type V = Seq<EntryModel>;

    open spec fn view(&self) -> Seq<EntryModel> {
        models(self.entries@)
    }
}

impl Ledger {
    pub open spec fn wf(&self) -> bool {
        wf_entries(self@)
    }

    /// A fresh ledger holds no entries.
    pub fn new() -> (l: Ledger)
        ensures
            l@ == Seq::<EntryModel>::empty(),
            l.wf(),
    {
        let l = Ledger { entries: Vec::new() };
        proof {
            assert(l@ =~= Seq::<EntryModel>::empty());
        }
        l
    }

    /// Clears the history, unconditionally.
    pub fn reset(&mut self)
        ensures
            final(self)@ == Seq::<EntryModel>::empty(),
            final(self).wf(),
    {
        self.entries.clear();
        proof {
            assert(self@ =~= Seq::<EntryModel>::empty());
        }
    }

    /// The streak bonus the given user would earn for a play at time `t`.
    pub fn streak_bonus(&self, user: &str, t: u64) -> (b: u32)
        ensures
            b == spec_streak_bonus(self@, user@, t),
            b <= 10,
    {
        let n = self.entries.len();
        let mut i: usize = n;
        proof {
            assert(self@.take(n as int) =~= self@);
        }
        while i > 0
            invariant
                i <= n,
                n == self@.len(),
                last_entry_of(self@, user@) == last_entry_of(self@.take(i as int), user@),
            decreases i,
        {
            let e = &self.entries[i - 1];
            proof {
                assert(self@.take(i as int).last() == self@[i - 1]);
                assert(self@.take(i as int).drop_last() =~= self@.take(i - 1));
            }
            if str_eq(e.user.as_str(), user) {
                let last_day = e.timestamp / 86400;
                let today = t / 86400;
                proof {
                    assert(e.timestamp / 86400 < u64::MAX) by (nonlinear_arith)
                        requires
                            e.timestamp <= u64::MAX,
                    ;
                }
                if today == last_day + 1 {
                    return 10;
                } else {
                    return 0;
                }
            }
            i -= 1;
        }
        proof {
            assert(self@.take(0) =~= Seq::<EntryModel>::empty());
        }
        0
    }

    /// Records one play: draws the speed, the success roll and the creativity
    /// points, adds the user's streak bonus, and appends the resulting entry.
    /// The score is exactly the sum of the four contributions, each within
    /// its stated range.
    pub fn record_play(&mut self, user: &str, command: &str, t: u64) -> (r: PlayOutcome)
        requires
            old(self).wf(),
        ensures
            final(self).wf(),
            final(self)@ == old(self)@.push(r.entry@),
            1 <= r.speed <= 50,
            r.success_points == 30 || r.success_points == 0,
            r.creativity <= 20,
            r.streak == spec_streak_bonus(old(self)@, user@, t),
            r.entry@.score == r.speed + r.success_points + r.creativity + r.streak,
            r.entry@.success == (r.success_points == 30),
            r.entry@.health == (if r.entry@.success { 100int } else { 80int }),
            r.entry@.user == user@,
            r.entry@.command == command@,
            r.entry@.timestamp == t,
    {
        let speed = sys::rand_in(1, 50);
        let roll = sys::rand_in(0, 9);
        let creativity = sys::rand_in(0, 20);
        let streak = self.streak_bonus(user, t);
        let e = play_entry(user, command, speed, roll, creativity, streak, t);
        let copy = clone_entry(&e);
        self.entries.push(copy);
        proof {
            assert(self@ =~= old(self)@.push(e@));
        }
        PlayOutcome {
            entry: e,
            speed,
            success_points: if roll < 7 { 30 } else { 0 },
            creativity,
            streak,
        }
    }

    /// Uses an item: a known item (looked up case-insensitively) appends a
    /// zero-score entry whose health is the baseline of 100 plus the item's
    /// bonus, clamped to 100; an unknown item is an input error and leaves
    /// the ledger untouched.
    pub fn use_item(&mut self, item: &str, user: &str, t: u64) -> (r: Result<Entry, ItemError>)
        requires
            old(self).wf(),
        ensures
            final(self).wf(),
            match r {
                Ok(e) => {
                    &&& spec_item_bonus(item@) is Some
                    &&& final(self)@ == old(self)@.push(e@)
                    &&& e@.user == user@
                    &&& e@.command == "Used item: "@ + item@
                    &&& e@.score == 0
                    &&& e@.success == true
                    &&& e@.health == (if 100 + spec_item_bonus(item@).unwrap() > 100 {
                        100int
                    } else {
                        100 + spec_item_bonus(item@).unwrap()
                    })
                    &&& e@.timestamp == t
                },
                Err(err) => {
                    &&& spec_item_bonus(item@) is None
                    &&& *final(self) == *old(self)
                    &&& err == ItemError::UnknownItem
                },
            },
    {
        let low = lower_str(item);
        let bonus: u32 = if str_eq(low.as_str(), "medkit") {
            30
        } else if str_eq(low.as_str(), "potion") {
            20
        } else if str_eq(low.as_str(), "bandage") {
            10
        } else {
            return Err(ItemError::UnknownItem);
        };
        let mut health: i32 = 100 + (bonus as i32);
        if health > 100 {
            health = 100;
        }
        let mut command = "Used item: ".to_owned();
        command.append(item);
        let e = Entry {
            user: user.to_owned(),
            command,
            score: 0,
            success: true,
            health,
            timestamp: t,
        };
        let copy = clone_entry(&e);
        self.entries.push(copy);
        proof {
            assert(self@ =~= old(self)@.push(e@));
        }
        Ok(e)
    }
}

/// The streak window law: right after a user's own entry `e` is appended, a
/// later play at time `t` earns the streak bonus exactly when it falls on the
/// calendar day one after `e`'s; in particular a play on the next day earns
/// 10 points, and one two or more days later earns none.
pub proof fn lemma_streak_window(entries: Seq<EntryModel>, e: EntryModel, t: u64)
    ensures
        spec_streak_bonus(entries.push(e), e.user, t) == (if t / 86400 == e.timestamp / 86400
            + 1 {
            10u32
        } else {
            0u32
        }),
{
    assert(entries.push(e).last() == e);
}

} // verus!

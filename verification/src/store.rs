//! The counter store: one rating record per (chat, user) pair, mutated
//! only through an atomic upsert that inserts the vote's delta for a fresh
//! pair or adds it to the stored value, and returns the value as committed.
//!
//! `RatingStore` is the store's reference model, and the fake store the
//! update queries run against in tests; a persistent backend must meet the
//! same contract through its own atomic upsert. Because every vote
//! serializes through that single operation, concurrent votes for one pair
//! arrive as some sequence of upserts, and `lemma_vote_sequence_total`
//! shows the outcome is the same for every arrival order.

use vstd::prelude::*;
use vstd::pervasive::VecAdditionalExecFns;

use crate::RatingUpdate;
use crate::delta_of;

verus! {

/// One durable rating row: a surrogate id, the (chat, user) key, and the
/// running counter.
#[derive(Clone, Copy, Debug, PartialEq, Eq, Structural)]
pub struct UserRating {
    pub id: i64,
    pub chat_id: i64,
    pub user_id: i64,
    pub rating: i64,
}

/// The counter a single vote leaves behind: the previous value plus the
/// delta, or the delta itself for a pair with no record yet.
pub open spec fn upsert_rating(m: Map<(i64, i64), int>, key: (i64, i64), delta: int) -> int {
    if m.contains_key(key) {
        m[key] + delta
    } else {
        delta
    }
}

/// The store state after one vote: the key now maps to the upserted value.
pub open spec fn apply_vote(
    m: Map<(i64, i64), int>,
    key: (i64, i64),
    update: RatingUpdate,
) -> Map<(i64, i64), int> {
    m.insert(key, upsert_rating(m, key, delta_of(update)))
}

/// The store state after a sequence of votes for one key, applied in
/// arrival order.
pub open spec fn apply_votes(
    m: Map<(i64, i64), int>,
    key: (i64, i64),
    votes: Seq<RatingUpdate>,
) -> Map<(i64, i64), int>
    decreases votes.len(),
{
    if votes.len() == 0 {
        m
    } else {
        apply_vote(apply_votes(m, key, votes.drop_last()), key, votes.last())
    }
}

/// How many votes of a sequence increment.
pub open spec fn inc_count(votes: Seq<RatingUpdate>) -> int
    decreases votes.len(),
{
    if votes.len() == 0 {
        0
    } else {
        inc_count(votes.drop_last()) + if votes.last() is Inc {
            1int
        } else {
            0int
        }
    }
}

/// How many votes of a sequence decrement.
pub open spec fn dec_count(votes: Seq<RatingUpdate>) -> int
    decreases votes.len(),
{
    if votes.len() == 0 {
        0
    } else {
        dec_count(votes.drop_last()) + if votes.last() is Dec {
            1int
        } else {
            0int
        }
    }
}

/// The ratings a sequence of records stands for, keyed by (chat, user).
pub open spec fn records_map(records: Seq<UserRating>) -> Map<(i64, i64), int>
    decreases records.len(),
{
    if records.len() == 0 {
        Map::empty()
    } else {
        records_map(records.drop_last()).insert(
            (records.last().chat_id, records.last().user_id),
            records.last().rating as int,
        )
    }
}

/// No two records share a (chat, user) key.
pub open spec fn unique_keys(records: Seq<UserRating>) -> bool {
    forall|i: int, j: int|
        0 <= i < j < records.len() ==> (
        #[trigger] records[i].chat_id,
        records[i].user_id,
        ) != (#[trigger] records[j].chat_id, records[j].user_id)
}

/// A record map holds a key exactly when some record carries it.
proof fn lemma_records_map_contains(records: Seq<UserRating>, key: (i64, i64))
    ensures
        records_map(records).contains_key(key) <==> exists|i: int|
            0 <= i < records.len() && (#[trigger] records[i].chat_id, records[i].user_id) == key,
    decreases records.len(),
{
    if records.len() > 0 {
        lemma_records_map_contains(records.drop_last(), key);
        let last = records.len() - 1;
        if (records[last].chat_id, records[last].user_id) == key {
            assert(records_map(records).contains_key(key));
        } else {
            if records_map(records).contains_key(key) {
                let i = choose|i: int|
                    0 <= i < records.drop_last().len() && (
                    #[trigger] records.drop_last()[i].chat_id,
                    records.drop_last()[i].user_id,
                    ) == key;
                assert((records[i].chat_id, records[i].user_id) == key);
            }
            if exists|i: int|
                0 <= i < records.len() && (#[trigger] records[i].chat_id, records[i].user_id)
                    == key {
                let i = choose|i: int|
                    0 <= i < records.len() && (
                    #[trigger] records[i].chat_id,
                    records[i].user_id,
                    ) == key;
                assert(i != last);
                assert((records.drop_last()[i].chat_id, records.drop_last()[i].user_id) == key);
                assert(records_map(records).contains_key(key));
            }
        }
    }
}

/// With unique keys, the map's value at a record's key is that record's
/// rating.
proof fn lemma_records_map_value(records: Seq<UserRating>, i: int)
    requires
        unique_keys(records),
        0 <= i < records.len(),
    ensures
        records_map(records).contains_key((records[i].chat_id, records[i].user_id)),
        records_map(records)[(records[i].chat_id, records[i].user_id)] == records[i].rating as int,
    decreases records.len(),
{
    let key = (records[i].chat_id, records[i].user_id);
    let last = records.len() - 1;
    if i == last {
        assert(records_map(records)[key] == records[last].rating as int);
    } else {
        assert(unique_keys(records.drop_last()));
        lemma_records_map_value(records.drop_last(), i);
        assert((records[last].chat_id, records[last].user_id) != key);
    }
}

/// Updating the one record that carries a key updates the map at that key
/// and nothing else.
proof fn lemma_records_map_update(records: Seq<UserRating>, i: int, r: UserRating)
    requires
        unique_keys(records),
        0 <= i < records.len(),
        (r.chat_id, r.user_id) == (records[i].chat_id, records[i].user_id),
    ensures
        records_map(records.update(i, r)) == records_map(records).insert(
            (r.chat_id, r.user_id),
            r.rating as int,
        ),
    decreases records.len(),
{
    let key = (r.chat_id, r.user_id);
    let last = records.len() - 1;
    let updated = records.update(i, r);
    if i == last {
        assert(updated.drop_last() =~= records.drop_last());
        assert(records_map(updated) =~= records_map(records).insert(key, r.rating as int));
    } else {
        assert(updated.drop_last() =~= records.drop_last().update(i, r));
        assert(unique_keys(records.drop_last()));
        lemma_records_map_update(records.drop_last(), i, r);
        assert((records[last].chat_id, records[last].user_id) != key);
        assert(records_map(updated) =~= records_map(records).insert(key, r.rating as int));
    }
}

/// The in-memory counter store. Its view is the map from (chat, user)
/// keys to ratings that its records stand for.
pub struct RatingStore {
    records: Vec<UserRating>,
}

impl View for RatingStore {
    type V = Map<(i64, i64), int>;

    closed spec fn view(&self) -> Map<(i64, i64), int> {
        records_map(self.records@)
    }
}

impl RatingStore {
    /// Every key names at most one record, and every stored rating is a
    /// machine integer.
    pub closed spec fn wf(&self) -> bool {
        &&& unique_keys(self.records@)
        &&& forall|k: (i64, i64)|
            self@.contains_key(k) ==> i64::MIN <= #[trigger] self@[k] <= i64::MAX
    }

    /// An empty store: no pair has a record yet.
    pub fn new() -> (s: RatingStore)
        ensures
            s.wf(),
            s@ == Map::<(i64, i64), int>::empty(),
    {
        RatingStore { records: Vec::new() }
    }

    /// The position of the record for a key, when one exists.
    fn find_index(&self, chat: i64, user: i64) -> (r: Option<usize>)
        ensures
            match r {
                Some(i) => i < self.records@.len() && (
                self.records@[i as int].chat_id,
                self.records@[i as int].user_id,
                ) == (chat, user),
                None => forall|i: int|
                    0 <= i < self.records@.len() ==> (
                    #[trigger] self.records@[i].chat_id,
                    self.records@[i].user_id,
                    ) != (chat, user),
            },
    {
        let mut i: usize = 0;
        while i < self.records.len()
            invariant
                i <= self.records@.len(),
                forall|j: int|
                    0 <= j < i ==> (
                    #[trigger] self.records@[j].chat_id,
                    self.records@[j].user_id,
                    ) != (chat, user),
            decreases self.records@.len() - i,
        {
            let r = &self.records[i];
            if r.chat_id == chat && r.user_id == user {
                return Some(i);
            }
            i = i + 1;
        }
        None
    }

    /// The stored rating for a pair, when that pair has a record.
    pub fn get(&self, chat: i64, user: i64) -> (r: Option<i64>)
        requires
            self.wf(),
        ensures
            match r {
                Some(v) => self@.contains_key((chat, user)) && v as int == self@[(chat, user)],
                None => !self@.contains_key((chat, user)),
            },
    {
        proof {
            lemma_records_map_contains(self.records@, (chat, user));
        }
        match self.find_index(chat, user) {
            Some(i) => {
                proof {
                    lemma_records_map_value(self.records@, i as int);
                }
                Some(self.records[i].rating)
            },
            None => None,
        }
    }

    /// The atomic upsert: insert the vote's delta for a fresh pair, or add
    /// it to the stored value, and return the value as committed.
    pub fn apply(&mut self, chat: i64, user: i64, update: RatingUpdate) -> (r: i64)
        requires
            old(self).wf(),
            old(self)@.contains_key((chat, user)) ==> i64::MIN <= old(self)@[(chat, user)]
                + delta_of(update) <= i64::MAX,
        ensures
            final(self).wf(),
            final(self)@ == apply_vote(old(self)@, (chat, user), update),
            r as int == upsert_rating(old(self)@, (chat, user), delta_of(update)),
            final(self)@[(chat, user)] == r as int,
    {
        let key: (i64, i64) = (chat, user);
        proof {
            lemma_records_map_contains(self.records@, key);
        }
        match self.find_index(chat, user) {
            Some(i) => {
                proof {
                    lemma_records_map_value(self.records@, i as int);
                }
                let found = self.records[i];
                let value = match update {
                    RatingUpdate::Inc => found.rating + 1,
                    RatingUpdate::Dec => found.rating - 1,
                };
                let updated = UserRating { rating: value, ..found };
                proof {
                    lemma_records_map_update(self.records@, i as int, updated);
                }
                self.records.set(i, updated);
                value
            },
            None => {
                let value = match update {
                    RatingUpdate::Inc => 1i64,
                    RatingUpdate::Dec => -1i64,
                };
                let ghost before = self.records@;
                let id = #[verifier::truncate] (self.records.len() as i64);
                self.records.push(UserRating { id, chat_id: chat, user_id: user, rating: value });
                proof {
                    assert(self.records@.drop_last() =~= before);
                    assert(self@ =~= apply_vote(records_map(before), key, update));
                    assert(forall|k: (i64, i64)|
                        self@.contains_key(k) ==> i64::MIN <= #[trigger] self@[k] <= i64::MAX);
                }
                value
            },
        }
    }

    /// One upvote: rating rises by one, starting from one for a fresh pair.
    pub fn increment(&mut self, chat: i64, user: i64) -> (r: i64)
        requires
            old(self).wf(),
            old(self)@.contains_key((chat, user)) ==> old(self)@[(chat, user)] < i64::MAX,
        ensures
            final(self).wf(),
            final(self)@ == apply_vote(old(self)@, (chat, user), RatingUpdate::Inc),
            r as int == upsert_rating(old(self)@, (chat, user), 1),
            final(self)@[(chat, user)] == r as int,
    {
        self.apply(chat, user, RatingUpdate::Inc)
    }

    /// One downvote: rating falls by one, starting from minus one for a
    /// fresh pair.
    pub fn decrement(&mut self, chat: i64, user: i64) -> (r: i64)
        requires
            old(self).wf(),
            old(self)@.contains_key((chat, user)) ==> i64::MIN < old(self)@[(chat, user)],
        ensures
            final(self).wf(),
            final(self)@ == apply_vote(old(self)@, (chat, user), RatingUpdate::Dec),
            r as int == upsert_rating(old(self)@, (chat, user), -1),
            final(self)@[(chat, user)] == r as int,
    {
        self.apply(chat, user, RatingUpdate::Dec)
    }
}

/// An update bound for one (chat, user) pair, executed against a store.
pub struct UpdateQuery {
    chat_id: i64,
    user_id: i64,
}

impl UpdateQuery {
    /// The pair this query is keyed by.
    pub closed spec fn key(&self) -> (i64, i64) {
        (self.chat_id, self.user_id)
    }

    pub fn new(chat: i64, user: i64) -> (q: UpdateQuery)
        ensures
            q.key() == (chat, user),
    {
        UpdateQuery { chat_id: chat, user_id: user }
    }

    /// Upsert an increment for this query's pair and return the committed
    /// rating.
    pub fn execute_inc(&self, store: &mut RatingStore) -> (r: i64)
        requires
            old(store).wf(),
            old(store)@.contains_key(self.key()) ==> old(store)@[self.key()] < i64::MAX,
        ensures
            final(store).wf(),
            final(store)@ == apply_vote(old(store)@, self.key(), RatingUpdate::Inc),
            r as int == upsert_rating(old(store)@, self.key(), 1),
            final(store)@[self.key()] == r as int,
    {
        store.increment(self.chat_id, self.user_id)
    }

    /// Upsert a decrement for this query's pair and return the committed
    /// rating.
    pub fn execute_dec(&self, store: &mut RatingStore) -> (r: i64)
        requires
            old(store).wf(),
            old(store)@.contains_key(self.key()) ==> i64::MIN < old(store)@[self.key()],
        ensures
            final(store).wf(),
            final(store)@ == apply_vote(old(store)@, self.key(), RatingUpdate::Dec),
            r as int == upsert_rating(old(store)@, self.key(), -1),
            final(store)@[self.key()] == r as int,
    {
        store.decrement(self.chat_id, self.user_id)
    }
}

/// A fresh pair's first vote stores the vote's delta itself, not zero:
/// one for an increment, minus one for a decrement.
pub proof fn lemma_first_vote_initialization(m: Map<(i64, i64), int>, key: (i64, i64))
    requires
        !m.contains_key(key),
    ensures
        upsert_rating(m, key, 1) == 1,
        upsert_rating(m, key, -1) == -1,
        apply_vote(m, key, RatingUpdate::Inc)[key] == 1,
        apply_vote(m, key, RatingUpdate::Dec)[key] == -1,
{
}

/// Votes for one pair serialize through the atomic upsert, so N
/// concurrent increments and M concurrent decrements arrive as some
/// sequence of upserts. Whatever that order, a pair that starts with no
/// record settles at exactly N - M: no update is lost.
pub proof fn lemma_vote_sequence_total(
    m: Map<(i64, i64), int>,
    key: (i64, i64),
    votes: Seq<RatingUpdate>,
)
    requires
        !m.contains_key(key),
        votes.len() > 0,
    ensures
        apply_votes(m, key, votes).contains_key(key),
        apply_votes(m, key, votes)[key] == inc_count(votes) - dec_count(votes),
    decreases votes.len(),
{
    let prefix = votes.drop_last();
    if votes.len() == 1 {
        assert(apply_votes(m, key, prefix) == m);
        assert(inc_count(prefix) == 0);
        assert(dec_count(prefix) == 0);
    } else {
        lemma_vote_sequence_total(m, key, prefix);
    }
    let before = apply_votes(m, key, prefix);
    assert(apply_votes(m, key, votes) == apply_vote(before, key, votes.last()));
    match votes.last() {
        RatingUpdate::Inc => {
            assert(inc_count(votes) == inc_count(prefix) + 1);
            assert(dec_count(votes) == dec_count(prefix));
        },
        RatingUpdate::Dec => {
            assert(inc_count(votes) == inc_count(prefix));
            assert(dec_count(votes) == dec_count(prefix) + 1);
        },
    }
}

/// Votes for one pair never touch another pair's record, however many
/// arrive and in whatever order.
pub proof fn lemma_cross_pair_independence(
    m: Map<(i64, i64), int>,
    key: (i64, i64),
    other: (i64, i64),
    votes: Seq<RatingUpdate>,
)
    requires
        key != other,
    ensures
        apply_votes(m, key, votes).contains_key(other) == m.contains_key(other),
        m.contains_key(other) ==> apply_votes(m, key, votes)[other] == m[other],
    decreases votes.len(),
{
    if votes.len() > 0 {
        lemma_cross_pair_independence(m, key, other, votes.drop_last());
    }
}

} // verus!

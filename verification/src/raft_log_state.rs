//! The raft state a log persists: vote, last, committed and purged log ids,
//! and user data; and the rules that every change to it obeys.

use vstd::prelude::*;

use crate::errors::{LogIdNonConsecutive, LogIdReversal, RaftLogStateError, VoteReversal};
use crate::record::{RaftLogAction, RaftLogRecord, WALRecord};
use crate::types::{key_lt, spec_next_log_index, DataValue, LogIdKind, OrderedId, Types};

verus! {

/// `a` orders before `b`, where an absent id orders before every id.
pub open spec fn opt_lt<K: OrderedId>(a: Option<K>, b: Option<K>) -> bool {
    match (a, b) {
        (None, Some(_)) => true,
        (Some(x), Some(y)) => key_lt(x.key(), y.key()),
        _ => false,
    }
}

/// `a` orders at or before `b`.
pub open spec fn opt_le<K: OrderedId>(a: Option<K>, b: Option<K>) -> bool {
    opt_lt(a, b) || a == b
}

/// The greater of two optional ids.
pub open spec fn opt_max<K: OrderedId>(a: Option<K>, b: Option<K>) -> Option<K> {
    if opt_lt(a, b) {
        b
    } else {
        a
    }
}

pub open spec fn opt_view<D: View>(o: Option<D>) -> Option<D::V> {
    match o {
        Some(d) => Some(d@),
        None => None,
    }
}

/// The order of optional ids is a total order.
pub proof fn lemma_opt_order<K: OrderedId>(a: Option<K>, b: Option<K>)
    ensures
        opt_lt(a, b) ==> !opt_lt(b, a) && a != b,
        !opt_lt(a, b) ==> opt_le(b, a),
{
    if let (Some(x), Some(y)) = (a, b) {
        K::lemma_key_injective(x, y);
    }
}

/// The order of optional ids is transitive.
pub proof fn lemma_opt_lt_transitive<K: OrderedId>(a: Option<K>, b: Option<K>, c: Option<K>)
    ensures
        opt_le(a, b) && opt_le(b, c) ==> opt_le(a, c),
        opt_lt(a, b) && opt_le(b, c) ==> opt_lt(a, c),
        opt_le(a, b) && opt_lt(b, c) ==> opt_lt(a, c),
{
}

/// `a < b` on optional ids.
pub fn opt_id_lt<K: OrderedId>(a: &Option<K>, b: &Option<K>) -> (r: bool)
    ensures
        r == opt_lt(*a, *b),
{
    match (a, b) {
        (None, Some(_)) => true,
        (Some(x), Some(y)) => x.id_lt(y),
        _ => false,
    }
}

/// A copy of an optional id.
pub fn copy_opt_id<K: OrderedId>(a: &Option<K>) -> (r: Option<K>)
    ensures
        r == *a,
{
    match a {
        Some(x) => Some(x.copy_id()),
        None => None,
    }
}

/// What a [`RaftLogState`] holds, with user data taken by its view.
pub struct RaftLogStateView<T: Types> {
    pub vote: Option<T::Vote>,
    pub last: Option<T::LogId>,
    pub committed: Option<T::LogId>,
    pub purged: Option<T::LogId>,
    pub user_data: Option<<T::UserData as View>::V>,
}

impl<T: Types> RaftLogStateView<T> {
    /// The error, if any, that an action is rejected with in this state.
    pub open spec fn check_action(self, a: RaftLogAction<T>) -> Result<(), RaftLogStateError<T>> {
        match a {
            RaftLogAction::SaveVote(vote) => match self.vote {
                Some(cur) => if key_lt(vote.key(), cur.key()) {
                    Err(RaftLogStateError::VoteReversal(VoteReversal { current: cur, attempted: vote }))
                } else {
                    Ok(())
                },
                None => Ok(()),
            },
            RaftLogAction::Append(log_id, _) => match self.last {
                Some(l) => if !key_lt(l.key(), log_id.key()) {
                    Err(
                        RaftLogStateError::LogIdReversal(
                            LogIdReversal { current: l, attempted: log_id, when: "append" },
                        ),
                    )
                } else if l.index() + 1 != log_id.index() {
                    Err(
                        RaftLogStateError::LogIdNonConsecutive(
                            LogIdNonConsecutive { last: self.last, attempted: log_id },
                        ),
                    )
                } else {
                    Ok(())
                },
                None => Ok(()),
            },
            RaftLogAction::Commit(log_id) => match self.committed {
                Some(c) => if key_lt(log_id.key(), c.key()) {
                    Err(
                        RaftLogStateError::LogIdReversal(
                            LogIdReversal { current: c, attempted: log_id, when: "commit" },
                        ),
                    )
                } else {
                    Ok(())
                },
                None => Ok(()),
            },
            RaftLogAction::TruncateAfter(_) => Ok(()),
            RaftLogAction::PurgeUpto(_) => Ok(()),
        }
    }

    /// The error, if any, that a record is rejected with in this state.
    pub open spec fn check(self, rec: RaftLogRecord<T>) -> Result<(), RaftLogStateError<T>> {
        match rec {
            WALRecord::Action(a) => self.check_action(a),
            WALRecord::Checkpoint(_) => Ok(()),
        }
    }

    /// The state after an accepted action.
    pub open spec fn after_action(self, a: RaftLogAction<T>) -> Self {
        match a {
            RaftLogAction::SaveVote(vote) => Self { vote: Some(vote), ..self },
            RaftLogAction::Append(log_id, _) => Self { last: Some(log_id), ..self },
            RaftLogAction::Commit(log_id) => Self { committed: Some(log_id), ..self },
            RaftLogAction::TruncateAfter(log_id) => if opt_lt(log_id, self.last) {
                Self { last: log_id, ..self }
            } else {
                self
            },
            RaftLogAction::PurgeUpto(log_id) => Self {
                purged: opt_max(self.purged, Some(log_id)),
                last: opt_max(self.last, Some(log_id)),
                ..self
            },
        }
    }

    /// The state after an accepted record: a checkpoint replaces the state.
    pub open spec fn after(self, rec: RaftLogRecord<T>) -> Self {
        match rec {
            WALRecord::Action(a) => self.after_action(a),
            WALRecord::Checkpoint(st) => st@,
        }
    }

    /// Appending `log_id` after `last` needs `last`'s index plus one, which
    /// must fit in a `u64`.
    pub open spec fn next_index_fits(self, rec: RaftLogRecord<T>) -> bool {
        match rec {
            WALRecord::Action(RaftLogAction::Append(log_id, _)) => match self.last {
                Some(l) => key_lt(l.key(), log_id.key()) ==> l.index() < u64::MAX,
                None => true,
            },
            _ => true,
        }
    }

    /// The log's start is at or below its end: nothing is purged that the
    /// log never reached.
    pub open spec fn purged_within_last(self) -> bool {
        opt_le(self.purged, self.last)
    }
}

/// An accepted action never moves the vote, the committed log id or the
/// purged log id back.
pub proof fn lemma_accepted_action_is_monotone<T: Types>(s: RaftLogStateView<T>, a: RaftLogAction<T>)
    requires
        s.check_action(a) is Ok,
    ensures
        opt_le(s.vote, s.after_action(a).vote),
        opt_le(s.committed, s.after_action(a).committed),
        opt_le(s.purged, s.after_action(a).purged),
{
    match a {
        RaftLogAction::SaveVote(v) => {
            lemma_opt_order(s.vote, Some(v));
        },
        RaftLogAction::Commit(c) => {
            lemma_opt_order(s.committed, Some(c));
        },
        RaftLogAction::PurgeUpto(p) => {
            lemma_opt_order(s.purged, Some(p));
        },
        _ => {},
    }
}

/// An accepted append makes its log id the last one, strictly above the
/// previous last, at the index right after it.
pub proof fn lemma_accepted_append_extends_last<T: Types>(
    s: RaftLogStateView<T>,
    log_id: T::LogId,
    payload: T::LogPayload,
)
    requires
        s.check_action(RaftLogAction::Append(log_id, payload)) is Ok,
    ensures
        s.after_action(RaftLogAction::Append(log_id, payload)).last == Some(log_id),
        opt_lt(s.last, Some(log_id)),
        s.last matches Some(l) ==> log_id.index() == l.index() + 1,
{
}

/// Purging up to a log id leaves both `purged` and `last` at or above it.
pub proof fn lemma_purge_covers_upto<T: Types>(s: RaftLogStateView<T>, upto: T::LogId)
    ensures
        opt_le(Some(upto), s.after_action(RaftLogAction::PurgeUpto(upto)).purged),
        opt_le(Some(upto), s.after_action(RaftLogAction::PurgeUpto(upto)).last),
{
    lemma_opt_order(s.purged, Some(upto));
    lemma_opt_order(s.last, Some(upto));
}

/// Every accepted action keeps `purged` at or below `last`, except a
/// truncation to below `purged`.
pub proof fn lemma_purged_within_last_is_kept<T: Types>(s: RaftLogStateView<T>, a: RaftLogAction<T>)
    requires
        s.purged_within_last(),
        s.check_action(a) is Ok,
        !(a matches RaftLogAction::TruncateAfter(t) && opt_lt(t, s.purged)),
    ensures
        s.after_action(a).purged_within_last(),
{
    match a {
        RaftLogAction::Append(l, _) => {
            lemma_opt_order(s.last, Some(l));
            lemma_opt_lt_transitive(s.purged, s.last, Some(l));
        },
        RaftLogAction::TruncateAfter(t) => {
            lemma_opt_order(t, s.purged);
        },
        RaftLogAction::PurgeUpto(p) => {
            lemma_opt_order(s.purged, Some(p));
            lemma_opt_order(s.last, Some(p));
            lemma_opt_lt_transitive(s.purged, s.last, Some(p));
        },
        _ => {},
    }
}

/// Truncating after a log id leaves no last log id above it.
pub proof fn lemma_truncate_leaves_nothing_above<T: Types>(s: RaftLogStateView<T>, t: Option<T::LogId>)
    ensures
        opt_le(s.after_action(RaftLogAction::TruncateAfter(t)).last, t),
        opt_le(s.after_action(RaftLogAction::TruncateAfter(t)).last, s.last),
{
    lemma_opt_order(t, s.last);
}

/// A checkpoint record is always accepted and replaces the whole state.
pub proof fn lemma_checkpoint_replaces_state<T: Types>(s: RaftLogStateView<T>, st: RaftLogState<T>)
    ensures
        s.check(WALRecord::Checkpoint(st)) is Ok,
        s.after(WALRecord::Checkpoint(st)) == st@,
{
}

/// A vote is refused only when it orders strictly below the current vote:
/// with no vote yet, or one at or below the new vote, saving it is accepted
/// and the new vote is kept.
pub proof fn lemma_vote_refused_only_below<T: Types>(s: RaftLogStateView<T>, vote: T::Vote)
    ensures
        s.check_action(RaftLogAction::SaveVote(vote)) is Ok <==> (s.vote matches Some(cur) ==> !key_lt(
            vote.key(),
            cur.key(),
        )),
        s.check_action(RaftLogAction::SaveVote(vote)) is Ok ==> s.after_action(
            RaftLogAction::SaveVote(vote),
        ).vote == Some(vote),
{
}

/// Saving the same vote twice is accepted both times: a saved vote never
/// refuses itself.
pub proof fn lemma_vote_resave_accepted<T: Types>(s: RaftLogStateView<T>, vote: T::Vote)
    requires
        s.check_action(RaftLogAction::SaveVote(vote)) is Ok,
    ensures
        s.after_action(RaftLogAction::SaveVote(vote)).check_action(RaftLogAction::SaveVote(vote)) is Ok,
        s.after_action(RaftLogAction::SaveVote(vote)).after_action(RaftLogAction::SaveVote(vote)) == s.after_action(
            RaftLogAction::SaveVote(vote),
        ),
{
}

/// A commit is refused only when its log id orders strictly below the
/// committed one: with nothing committed yet, or a committed log id at or
/// below it, the commit is accepted and recorded.
pub proof fn lemma_commit_refused_only_below<T: Types>(s: RaftLogStateView<T>, log_id: T::LogId)
    ensures
        s.check_action(RaftLogAction::Commit(log_id)) is Ok <==> (s.committed matches Some(c) ==> !key_lt(
            log_id.key(),
            c.key(),
        )),
        s.check_action(RaftLogAction::Commit(log_id)) is Ok ==> s.after_action(
            RaftLogAction::Commit(log_id),
        ).committed == Some(log_id),
{
}

/// Committing the same log id twice is accepted both times.
pub proof fn lemma_commit_recommit_accepted<T: Types>(s: RaftLogStateView<T>, log_id: T::LogId)
    requires
        s.check_action(RaftLogAction::Commit(log_id)) is Ok,
    ensures
        s.after_action(RaftLogAction::Commit(log_id)).check_action(RaftLogAction::Commit(log_id)) is Ok,
{
}

/// With no last log id, as in an empty log, an append of any log id is
/// accepted and becomes the last log id; the next append is then accepted
/// exactly when it follows it, one index up and ordered after it.
pub proof fn lemma_append_to_empty_accepted<T: Types>(
    s: RaftLogStateView<T>,
    log_id: T::LogId,
    payload: T::LogPayload,
    next: T::LogId,
    next_payload: T::LogPayload,
)
    requires
        s.last is None,
    ensures
        s.check_action(RaftLogAction::Append(log_id, payload)) is Ok,
        s.after_action(RaftLogAction::Append(log_id, payload)).last == Some(log_id),
        s.after_action(RaftLogAction::Append(log_id, payload)).check_action(RaftLogAction::Append(next, next_payload))
            is Ok <==> (key_lt(log_id.key(), next.key()) && log_id.index() + 1 == next.index()),
{
}

/// The raft state persisted in the WAL: vote, the last, committed and purged
/// log ids, and user data.
#[derive(Debug, Clone, PartialEq, Eq)]
pub struct RaftLogState<T: Types> {
    pub vote: Option<T::Vote>,
    pub last: Option<T::LogId>,
    pub committed: Option<T::LogId>,
    pub purged: Option<T::LogId>,
    pub user_data: Option<T::UserData>,
}

impl<T: Types> View for RaftLogState<T> {
    type V = RaftLogStateView<T>;

    open spec fn view(&self) -> RaftLogStateView<T> {
        RaftLogStateView {
            vote: self.vote,
            last: self.last,
            committed: self.committed,
            purged: self.purged,
            user_data: opt_view(self.user_data),
        }
    }
}

impl<T: Types> Default for RaftLogState<T> {
    fn default() -> (r: Self)
        ensures
            r.vote is None,
            r.last is None,
            r.committed is None,
            r.purged is None,
            r.user_data is None,
    {
        RaftLogState { vote: None, last: None, committed: None, purged: None, user_data: None }
    }
}

impl<T: Types> RaftLogState<T> {
    /// The empty state: nothing voted, appended, committed or purged.
    pub fn new() -> (r: Self)
        ensures
            r.vote is None,
            r.last is None,
            r.committed is None,
            r.purged is None,
            r.user_data is None,
    {
        RaftLogState { vote: None, last: None, committed: None, purged: None, user_data: None }
    }

    pub fn vote(&self) -> (r: Option<&T::Vote>)
        ensures
            r matches Some(v) ==> self.vote == Some(*v),
            r is None <==> self.vote is None,
    {
        self.vote.as_ref()
    }

    /// Whether the purged log id, if any, has a successor index: the log
    /// can go on after it.
    pub fn purged_has_successor(&self) -> (r: bool)
        ensures
            r == (self.purged matches Some(p) ==> p.index() < u64::MAX),
    {
        match &self.purged {
            Some(p) => p.log_index() < u64::MAX,
            None => true,
        }
    }

    pub fn last(&self) -> (r: Option<&T::LogId>)
        ensures
            r matches Some(v) ==> self.last == Some(*v),
            r is None <==> self.last is None,
    {
        self.last.as_ref()
    }

    pub fn committed(&self) -> (r: Option<&T::LogId>)
        ensures
            r matches Some(v) ==> self.committed == Some(*v),
            r is None <==> self.committed is None,
    {
        self.committed.as_ref()
    }

    pub fn purged(&self) -> (r: Option<&T::LogId>)
        ensures
            r matches Some(v) ==> self.purged == Some(*v),
            r is None <==> self.purged is None,
    {
        self.purged.as_ref()
    }

    pub fn set_last(&mut self, log_id: Option<T::LogId>)
        ensures
            final(self)@ == (RaftLogStateView { last: log_id, ..old(self)@ }),
    {
        self.last = log_id;
    }

    /// A copy of this state.
    pub fn duplicate(&self) -> (r: Self)
        ensures
            r@ == self@,
    {
        let user_data = match &self.user_data {
            Some(d) => Some(d.duplicate()),
            None => None,
        };
        RaftLogState {
            vote: copy_opt_id(&self.vote),
            last: copy_opt_id(&self.last),
            committed: copy_opt_id(&self.committed),
            purged: copy_opt_id(&self.purged),
            user_data,
        }
    }

    fn check_vote(&self, vote: &T::Vote) -> (r: Result<(), RaftLogStateError<T>>)
        ensures
            r == self@.check_action(RaftLogAction::SaveVote(*vote)),
    {
        match &self.vote {
            Some(cur) => if vote.id_lt(cur) {
                Err(
                    RaftLogStateError::VoteReversal(
                        VoteReversal::new(cur.copy_id(), vote.copy_id()),
                    ),
                )
            } else {
                Ok(())
            },
            None => Ok(()),
        }
    }

    fn check_append(&self, log_id: &T::LogId, payload: &T::LogPayload) -> (r: Result<
        (),
        RaftLogStateError<T>,
    >)
        requires
            self@.next_index_fits(WALRecord::Action(RaftLogAction::Append(*log_id, *payload))),
        ensures
            r == self@.check_action(RaftLogAction::Append(*log_id, *payload)),
    {
        match &self.last {
            Some(l) => {
                if !l.id_lt(log_id) {
                    return Err(
                        RaftLogStateError::LogIdReversal(
                            LogIdReversal::new(l.copy_id(), log_id.copy_id(), "append"),
                        ),
                    );
                }
                // No consecutiveness check without a last log id: the first
                // log appended may have any index, as when a log is restored.
                let expected = l.log_index() + 1;
                if expected != log_id.log_index() {
                    return Err(
                        RaftLogStateError::LogIdNonConsecutive(
                            LogIdNonConsecutive::new(copy_opt_id(&self.last), log_id.copy_id()),
                        ),
                    );
                }
                Ok(())
            },
            None => Ok(()),
        }
    }

    fn check_commit(&self, log_id: &T::LogId) -> (r: Result<(), RaftLogStateError<T>>)
        ensures
            r == self@.check_action(RaftLogAction::Commit(*log_id)),
    {
        match &self.committed {
            Some(c) => if log_id.id_lt(c) {
                Err(
                    RaftLogStateError::LogIdReversal(
                        LogIdReversal::new(c.copy_id(), log_id.copy_id(), "commit"),
                    ),
                )
            } else {
                Ok(())
            },
            None => Ok(()),
        }
    }

    /// Verify that `rec` can be applied to this state, without changing it.
    ///
    /// [`Self::apply`] runs this first, so applying an accepted record never
    /// fails halfway.
    pub fn check(&self, rec: &RaftLogRecord<T>) -> (r: Result<(), RaftLogStateError<T>>)
        requires
            self@.next_index_fits(*rec),
        ensures
            r == self@.check(*rec),
    {
        match rec {
            WALRecord::Action(RaftLogAction::SaveVote(vote)) => self.check_vote(vote),
            WALRecord::Action(RaftLogAction::Append(log_id, payload)) => self.check_append(
                log_id,
                payload,
            ),
            WALRecord::Action(RaftLogAction::Commit(log_id)) => self.check_commit(log_id),
            WALRecord::Action(RaftLogAction::TruncateAfter(_)) => Ok(()),
            WALRecord::Action(RaftLogAction::PurgeUpto(_)) => Ok(()),
            WALRecord::Checkpoint(_) => Ok(()),
        }
    }

    /// Apply `rec` if [`Self::check`] accepts it; leave the state unchanged
    /// otherwise.
    pub fn apply(&mut self, rec: &RaftLogRecord<T>) -> (r: Result<(), RaftLogStateError<T>>)
        requires
            old(self)@.next_index_fits(*rec),
        ensures
            r == old(self)@.check(*rec),
            r is Ok ==> final(self)@ == old(self)@.after(*rec),
            r is Err ==> final(self)@ == old(self)@,
    {
        self.check(rec)?;
        match rec {
            WALRecord::Action(RaftLogAction::SaveVote(vote)) => {
                self.vote = Some(vote.copy_id());
            },
            WALRecord::Action(RaftLogAction::Append(log_id, _payload)) => {
                self.last = Some(log_id.copy_id());
            },
            WALRecord::Action(RaftLogAction::Commit(log_id)) => {
                self.committed = Some(log_id.copy_id());
            },
            WALRecord::Action(RaftLogAction::TruncateAfter(log_id)) => {
                self.truncate_after(log_id);
            },
            WALRecord::Action(RaftLogAction::PurgeUpto(log_id)) => {
                self.purge(log_id);
            },
            WALRecord::Checkpoint(state) => {
                *self = state.duplicate();
            },
        }
        Ok(())
    }

    /// Move `last` back to `log_id` if it is ahead of it.
    fn truncate_after(&mut self, log_id: &Option<T::LogId>)
        ensures
            final(self)@ == old(self)@.after_action(RaftLogAction::TruncateAfter(*log_id)),
    {
        if opt_id_lt(log_id, &self.last) {
            self.last = copy_opt_id(log_id);
        }
    }

    /// Advance `purged`, and `last` with it, to at least `log_id`.
    fn purge(&mut self, log_id: &T::LogId)
        ensures
            final(self)@ == old(self)@.after_action(RaftLogAction::PurgeUpto(*log_id)),
    {
        let purged = Some(log_id.copy_id());
        if opt_id_lt(&self.purged, &purged) {
            self.purged = copy_opt_id(&purged);
        }
        if opt_id_lt(&self.last, &purged) {
            self.last = purged;
        }
    }
}

} // verus!

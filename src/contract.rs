//! The poll actor: validates each operation or message against the phase and
//! the caller's identity, then applies it to the instance's state.

use vstd::prelude::*;
use crate::keyed::{has_key, find_key, insert_position, lemma_first_unique, lemma_insert_pos_at, upsert, KeyedEntry};
use crate::state::{
    close_step, empty_poll, initialize_step, join_step, nominate_step, polls_of, record_poll_step,
    start_vote_step, vote_step, PollState,
};
use crate::tally::{compute_results as tally_results, tally};
use crate::text::nomination_id;
use crate::types::{
    ChainId, CreatedPollsEntry, Message, NominationEntry, Operation, ParticipantEntry, PollError,
    RankingEntry,
};

verus! {

/// One poll instance: its state and the operations and messages it accepts.
pub struct MealVotingContract {
    pub state: PollState,
}

fn is_participant(v: &Vec<ParticipantEntry>, user: &String) -> (r: bool)
    ensures
        r == has_key(v.deep_view(), user@),
{
    let ghost dv = v.deep_view();
    assert(forall|j: int| 0 <= j < v@.len() ==> (#[trigger] dv[j]).0 == v@[j].key_view());
    match find_key(v, user) {
        Some(i) => {
            assert(dv[i as int].0 == user@);
            true
        },
        None => false,
    }
}

/// Sets the display name of `user`, adding the user at its place in key
/// order if new.
fn upsert_participant(v: &mut Vec<ParticipantEntry>, user: String, name: String)
    ensures
        final(v).deep_view() == upsert(old(v).deep_view(), user@, name@),
{
    let ghost ov = old(v).deep_view();
    assert(forall|j: int| 0 <= j < v@.len() ==> (#[trigger] ov[j]).0 == v@[j].key_view());
    match find_key(v, &user) {
        Some(i) => {
            proof {
                lemma_first_unique(ov, user@, i as int);
            }
            v.set(i, ParticipantEntry { user_id: user, name });
        },
        None => {
            let p = insert_position(v, &user);
            proof {
                lemma_insert_pos_at(ov, user@, p as int);
            }
            v.insert(p, ParticipantEntry { user_id: user, name });
        },
    }
    assert(v.deep_view() =~= upsert(ov, user@, name@));
}

/// Sets the ranking of `user`, adding the voter at its place in key order if new.
fn upsert_ranking(v: &mut Vec<RankingEntry>, user: String, ids: Vec<String>)
    ensures
        final(v).deep_view() == upsert(old(v).deep_view(), user@, ids.deep_view()),
{
    let ghost ov = old(v).deep_view();
    let ghost iv = ids.deep_view();
    assert(forall|j: int| 0 <= j < v@.len() ==> (#[trigger] ov[j]).0 == v@[j].key_view());
    match find_key(v, &user) {
        Some(i) => {
            proof {
                lemma_first_unique(ov, user@, i as int);
            }
            v.set(i, RankingEntry { user_id: user, nomination_ids: ids });
        },
        None => {
            let p = insert_position(v, &user);
            proof {
                lemma_insert_pos_at(ov, user@, p as int);
            }
            v.insert(p, RankingEntry { user_id: user, nomination_ids: ids });
        },
    }
    assert(v.deep_view() =~= upsert(ov, user@, iv));
}

/// Stores `e` under its identifier, at its place in key order if new.
fn upsert_nomination(v: &mut Vec<NominationEntry>, e: NominationEntry)
    ensures
        final(v).deep_view() == upsert(old(v).deep_view(), e.nomination_id@, (e.user_id@, e.text@)),
{
    let ghost ov = old(v).deep_view();
    let ghost ev = e.deep_view();
    assert(forall|j: int| 0 <= j < v@.len() ==> (#[trigger] ov[j]).0 == v@[j].key_view());
    match find_key(v, &e.nomination_id) {
        Some(i) => {
            proof {
                lemma_first_unique(ov, ev.0, i as int);
            }
            v.set(i, e);
        },
        None => {
            let p = insert_position(v, &e.nomination_id);
            proof {
                lemma_insert_pos_at(ov, ev.0, p as int);
            }
            v.insert(p, e);
        },
    }
    assert(v.deep_view() =~= upsert(ov, ev.0, ev.1));
}

/// An operation other than poll creation ended as the transition `step`
/// says: the state is the step's, and the result is its result, with no
/// message to send.
pub open spec fn answers(
    next: crate::state::PollView,
    r: Result<Option<Message>, PollError>,
    step: crate::state::Outcome,
) -> bool {
    &&& next == step.0
    &&& match step.1 {
        Ok(_) => r == Ok::<Option<Message>, PollError>(None),
        Err(e) => r == Err::<Option<Message>, PollError>(e),
    }
}

impl MealVotingContract {
    /// An instance whose storage holds nothing yet.
    pub fn new() -> (r: Self)
        ensures
            r.state@ == empty_poll(),
    {
        let r = MealVotingContract {
            state: PollState {
                topic: String::new(),
                votes_per_voter: 0,
                admin_id: String::new(),
                has_started: false,
                is_closed: false,
                participants: Vec::new(),
                nominations: Vec::new(),
                rankings: Vec::new(),
                results: Vec::new(),
                created_polls: Vec::new(),
            },
        };
        assert(r.state@.participants =~= seq![]);
        assert(r.state@.nominations =~= seq![]);
        assert(r.state@.rankings =~= seq![]);
        assert(r.state@.results =~= seq![]);
        assert(r.state@.created_polls =~= seq![]);
        r
    }

    /// Sets topic, points per voter and admin, reopens the phases, clears the
    /// results, and adds the admin as the participant "Admin".
    pub fn initialize(&mut self, topic: String, votes_per_voter: u32, admin_id: String)
        ensures
            final(self).state@ == initialize_step(old(self).state@, topic@, votes_per_voter, admin_id@),
    {
        let admin_name = String::from_str("Admin");
        proof {
            reveal_strlit("Admin");
            assert(admin_name@ =~= crate::state::admin_name());
        }
        self.state.topic = topic;
        self.state.votes_per_voter = votes_per_voter;
        self.state.admin_id = admin_id.clone();
        self.state.has_started = false;
        self.state.is_closed = false;
        self.state.results = Vec::new();
        upsert_participant(&mut self.state.participants, admin_id, admin_name);
        assert(self.state@.results =~= seq![]);
    }

    /// Joins `owner` under display `name`, overwriting an earlier name.
    pub fn join(&mut self, name: String, owner: String) -> (r: Result<(), PollError>)
        ensures
            (final(self).state@, r) == join_step(old(self).state@, name@, owner@),
    {
        if self.state.is_closed {
            return Err(PollError::PollClosed);
        }
        upsert_participant(&mut self.state.participants, owner, name);
        Ok(())
    }

    /// Adds a nomination by `owner` under identifier `nom_<count>`.
    pub fn nominate(&mut self, text: String, owner: String) -> (r: Result<(), PollError>)
        ensures
            (final(self).state@, r) == nominate_step(old(self).state@, text@, owner@),
    {
        if self.state.has_started {
            return Err(PollError::VotingAlreadyStarted);
        }
        if !is_participant(&self.state.participants, &owner) {
            return Err(PollError::NotAParticipant);
        }
        let id = nomination_id(self.state.nominations.len());
        upsert_nomination(&mut self.state.nominations, NominationEntry { nomination_id: id, user_id: owner, text });
        Ok(())
    }

    /// Records the ranking of `owner`, replacing an earlier one.
    pub fn vote(&mut self, rankings: Vec<String>, owner: String) -> (r: Result<(), PollError>)
        ensures
            (final(self).state@, r) == vote_step(old(self).state@, rankings.deep_view(), owner@),
    {
        if !self.state.has_started {
            return Err(PollError::VotingNotStarted);
        }
        if self.state.is_closed {
            return Err(PollError::PollClosed);
        }
        if rankings.len() > self.state.votes_per_voter as usize {
            return Err(PollError::TooManyRankings);
        }
        if !is_participant(&self.state.participants, &owner) {
            return Err(PollError::NotAParticipant);
        }
        upsert_ranking(&mut self.state.rankings, owner, rankings);
        Ok(())
    }

    /// Starts the voting phase; only the admin may.
    pub fn start_vote(&mut self, owner: String) -> (r: Result<(), PollError>)
        ensures
            (final(self).state@, r) == start_vote_step(old(self).state@, owner@),
    {
        if owner != self.state.admin_id {
            return Err(PollError::NotAdmin);
        }
        self.state.has_started = true;
        Ok(())
    }

    /// Recomputes the results from the current rankings and nominations.
    pub fn compute_results(&mut self)
        ensures
            final(self).state@ == (crate::state::PollView {
                results: tally(
                    old(self).state@.rankings,
                    old(self).state@.nominations,
                    old(self).state@.votes_per_voter as nat,
                ),
                ..old(self).state@
            }),
    {
        let results = tally_results(&self.state.rankings, &self.state.nominations, self.state.votes_per_voter);
        self.state.results = results;
    }

    /// Closes the poll and computes its results; only the admin may, once.
    pub fn close_poll(&mut self, owner: String) -> (r: Result<(), PollError>)
        ensures
            (final(self).state@, r) == close_step(old(self).state@, owner@),
    {
        if owner != self.state.admin_id {
            return Err(PollError::NotAdmin);
        }
        if self.state.is_closed {
            return Err(PollError::AlreadyClosed);
        }
        self.state.is_closed = true;
        self.compute_results();
        Ok(())
    }

    /// Appends `chain_id` to the instances recorded for `creator`.
    pub fn record_created_poll(&mut self, creator: String, chain_id: ChainId)
        ensures
            final(self).state@ == record_poll_step(old(self).state@, creator@, chain_id),
    {
        let ghost ov = self.state@;
        let ghost cv = ov.created_polls;
        assert(forall|j: int| 0 <= j < self.state.created_polls@.len() ==> (#[trigger] cv[j]).0
            == self.state.created_polls@[j].key_view());
        match find_key(&self.state.created_polls, &creator) {
            Some(i) => {
                proof {
                    lemma_first_unique(cv, creator@, i as int);
                }
                let old_ids = &self.state.created_polls[i].chain_ids;
                let mut ids: Vec<ChainId> = Vec::new();
                let mut j: usize = 0;
                while j < old_ids.len()
                    invariant
                        j <= old_ids@.len(),
                        ids@ == old_ids@.take(j as int),
                    decreases old_ids@.len() - j,
                {
                    ids.push(old_ids[j]);
                    assert(old_ids@.take(j + 1) =~= old_ids@.take(j as int).push(old_ids@[j as int]));
                    j = j + 1;
                }
                assert(old_ids@.take(old_ids@.len() as int) =~= old_ids@);
                assert(ids@ == polls_of(ov, creator@));
                ids.push(chain_id);
                self.state.created_polls.set(i, CreatedPollsEntry { user_id: creator, chain_ids: ids });
            },
            None => {
                let mut ids: Vec<ChainId> = Vec::new();
                ids.push(chain_id);
                assert(ids@ =~= polls_of(ov, creator@).push(chain_id));
                let p = insert_position(&self.state.created_polls, &creator);
                proof {
                    lemma_insert_pos_at(cv, creator@, p as int);
                }
                self.state.created_polls.insert(p, CreatedPollsEntry { user_id: creator, chain_ids: ids });
            },
        }
        assert(self.state@.created_polls =~= record_poll_step(ov, creator@, chain_id).created_polls);
    }

    /// Executes an operation from an authenticated caller (`authenticated`
    /// tells whether the runtime knows who signed it). Creating a poll
    /// changes nothing here and hands back the message that initializes the
    /// new instance; the caller spawns that instance, sends the message and
    /// then records it with `record_created_poll`.
    pub fn execute_operation(&mut self, operation: Operation, authenticated: bool) -> (r: Result<Option<Message>, PollError>)
        ensures
            match operation {
                Operation::CreatePoll { topic, votes_per_voter, owner } => {
                    &&& final(self).state@ == old(self).state@
                    &&& authenticated ==> match r {
                        Ok(Some(Message::InitializePoll { topic: t, votes_per_voter: n, admin_id: a })) =>
                            t@ == topic@ && n == votes_per_voter && a@ == owner@,
                        _ => false,
                    }
                    &&& !authenticated ==> r == Err::<Option<Message>, PollError>(PollError::AuthenticationMissing)
                },
                Operation::Join { name, owner } => answers(
                    final(self).state@,
                    r,
                    join_step(old(self).state@, name@, owner@),
                ),
                Operation::Nominate { text, owner } => answers(
                    final(self).state@,
                    r,
                    nominate_step(old(self).state@, text@, owner@),
                ),
                Operation::Vote { rankings, owner } => answers(
                    final(self).state@,
                    r,
                    vote_step(old(self).state@, rankings.deep_view(), owner@),
                ),
                Operation::StartVote { owner } => answers(
                    final(self).state@,
                    r,
                    start_vote_step(old(self).state@, owner@),
                ),
                Operation::ClosePoll { owner } => answers(
                    final(self).state@,
                    r,
                    close_step(old(self).state@, owner@),
                ),
            },
    {
        match operation {
            Operation::CreatePoll { topic, votes_per_voter, owner } => {
                if !authenticated {
                    return Err(PollError::AuthenticationMissing);
                }
                Ok(Some(Message::InitializePoll { topic, votes_per_voter, admin_id: owner }))
            },
            Operation::Join { name, owner } => {
                let r = self.join(name, owner);
                match r { Ok(()) => Ok(None), Err(e) => Err(e) }
            },
            Operation::Nominate { text, owner } => {
                let r = self.nominate(text, owner);
                match r { Ok(()) => Ok(None), Err(e) => Err(e) }
            },
            Operation::Vote { rankings, owner } => {
                let r = self.vote(rankings, owner);
                match r { Ok(()) => Ok(None), Err(e) => Err(e) }
            },
            Operation::StartVote { owner } => {
                let r = self.start_vote(owner);
                match r { Ok(()) => Ok(None), Err(e) => Err(e) }
            },
            Operation::ClosePoll { owner } => {
                let r = self.close_poll(owner);
                match r { Ok(()) => Ok(None), Err(e) => Err(e) }
            },
        }
    }

    /// Executes a message addressed to this instance; each one validates and
    /// acts exactly as its local operation does.
    pub fn execute_message(&mut self, message: Message) -> (r: Result<(), PollError>)
        ensures
            match message {
                Message::InitializePoll { topic, votes_per_voter, admin_id } => {
                    &&& final(self).state@ == initialize_step(old(self).state@, topic@, votes_per_voter, admin_id@)
                    &&& r is Ok
                },
                Message::Nominate { user_id, text } =>
                    (final(self).state@, r) == nominate_step(old(self).state@, text@, user_id@),
                Message::Vote { user_id, rankings } =>
                    (final(self).state@, r) == vote_step(old(self).state@, rankings.deep_view(), user_id@),
                Message::StartVote { user_id } =>
                    (final(self).state@, r) == start_vote_step(old(self).state@, user_id@),
                Message::ClosePoll { user_id } =>
                    (final(self).state@, r) == close_step(old(self).state@, user_id@),
            },
    {
        match message {
            Message::InitializePoll { topic, votes_per_voter, admin_id } => {
                self.initialize(topic, votes_per_voter, admin_id);
                Ok(())
            },
            Message::Nominate { user_id, text } => self.nominate(text, user_id),
            Message::Vote { user_id, rankings } => self.vote(rankings, user_id),
            Message::StartVote { user_id } => self.start_vote(user_id),
            Message::ClosePoll { user_id } => self.close_poll(user_id),
        }
    }
}

} // verus!

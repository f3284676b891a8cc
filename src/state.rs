//! The state of one poll instance, its abstract model, and the transition
//! that each operation makes on that model.

use vstd::prelude::*;
use crate::keyed::{has_key, insert_pos, key_pos, lemma_insert_pos, lemma_upsert_sorted, sorted_keys, upsert};
use crate::tally::{tally, NominationsView, RankingsView, ResultView};
use crate::text::{lemma_nom_id_injective, nom_id};
use crate::types::{ChainId, CreatedPollsEntry, NominationEntry, ParticipantEntry, PollError, RankingEntry, ResultEntry};

verus! {

/// The state of one poll instance.
#[derive(Clone, Debug)]
pub struct PollState {
    /// The poll topic.
    pub topic: String,
    /// How many choices a ranking may hold; also the points of a first choice.
    pub votes_per_voter: u32,
    /// The administrator's user identifier.
    pub admin_id: String,
    /// Whether voting has started.
    pub has_started: bool,
    /// Whether the poll is closed.
    pub is_closed: bool,
    /// Participants, one entry per user, in ascending user order.
    pub participants: Vec<ParticipantEntry>,
    /// Nominations in ascending identifier order, keyed `nom_<i>`.
    pub nominations: Vec<NominationEntry>,
    /// Rankings, one entry per voter, in ascending voter order.
    pub rankings: Vec<RankingEntry>,
    /// The tally, written when the poll closes.
    pub results: Vec<ResultEntry>,
    /// Instances spawned by each creator, in ascending creator order.
    pub created_polls: Vec<CreatedPollsEntry>,
}

/// The abstract value of a `PollState`.
pub struct PollView {
    pub topic: Seq<char>,
    pub votes_per_voter: u32,
    pub admin_id: Seq<char>,
    pub has_started: bool,
    pub is_closed: bool,
    /// `(user, display name)` pairs.
    pub participants: Seq<(Seq<char>, Seq<char>)>,
    pub nominations: NominationsView,
    pub rankings: RankingsView,
    pub results: Seq<ResultView>,
    /// `(creator, spawned instances)` pairs.
    pub created_polls: Seq<(Seq<char>, Seq<ChainId>)>,
}

impl View for PollState {
    type V = PollView;

    open spec fn view(&self) -> PollView {
        PollView {
            topic: self.topic@,
            votes_per_voter: self.votes_per_voter,
            admin_id: self.admin_id@,
            has_started: self.has_started,
            is_closed: self.is_closed,
            participants: self.participants.deep_view(),
            nominations: self.nominations.deep_view(),
            rankings: self.rankings.deep_view(),
            results: self.results.deep_view(),
            created_polls: self.created_polls.deep_view(),
        }
    }
}

/// The result of a transition: the next state, and whether the call succeeded.
pub type Outcome = (PollView, Result<(), PollError>);

/// A state whose storage holds nothing yet.
pub open spec fn empty_poll() -> PollView {
    PollView {
        topic: seq![],
        votes_per_voter: 0,
        admin_id: seq![],
        has_started: false,
        is_closed: false,
        participants: seq![],
        nominations: seq![],
        rankings: seq![],
        results: seq![],
        created_polls: seq![],
    }
}

/// The display name given to the admin on initialization.
pub open spec fn admin_name() -> Seq<char> {
    seq!['A', 'd', 'm', 'i', 'n']
}

/// `k` is `nom_<i>` for some `i < n`.
pub open spec fn nom_below(k: Seq<char>, n: nat) -> bool {
    exists|i: nat| i < n && k == #[trigger] nom_id(i)
}

/// Participants, nominations, rankings and creators are key-ordered maps
/// (keys strictly ascending), and the nominations are keyed by `nom_<i>` for
/// `i` below their count.
pub open spec fn well_formed(v: PollView) -> bool {
    &&& sorted_keys(v.participants)
    &&& sorted_keys(v.nominations)
    &&& sorted_keys(v.rankings)
    &&& sorted_keys(v.created_polls)
    &&& forall|j: int| 0 <= j < v.nominations.len() ==> nom_below(#[trigger] v.nominations[j].0, v.nominations.len())
}

pub open spec fn initialize_step(v: PollView, topic: Seq<char>, votes_per_voter: u32, admin_id: Seq<char>) -> PollView {
    PollView {
        topic: topic,
        votes_per_voter: votes_per_voter,
        admin_id: admin_id,
        has_started: false,
        is_closed: false,
        results: seq![],
        participants: upsert(v.participants, admin_id, admin_name()),
        ..v
    }
}

pub open spec fn join_step(v: PollView, name: Seq<char>, owner: Seq<char>) -> Outcome {
    if v.is_closed {
        (v, Err(PollError::PollClosed))
    } else {
        (PollView { participants: upsert(v.participants, owner, name), ..v }, Ok(()))
    }
}

pub open spec fn nominate_step(v: PollView, text: Seq<char>, owner: Seq<char>) -> Outcome {
    if v.has_started {
        (v, Err(PollError::VotingAlreadyStarted))
    } else if !has_key(v.participants, owner) {
        (v, Err(PollError::NotAParticipant))
    } else {
        (
            PollView {
                nominations: upsert(v.nominations, nom_id(v.nominations.len()), (owner, text)),
                ..v
            },
            Ok(()),
        )
    }
}

pub open spec fn vote_step(v: PollView, rankings: Seq<Seq<char>>, owner: Seq<char>) -> Outcome {
    if !v.has_started {
        (v, Err(PollError::VotingNotStarted))
    } else if v.is_closed {
        (v, Err(PollError::PollClosed))
    } else if rankings.len() > v.votes_per_voter {
        (v, Err(PollError::TooManyRankings))
    } else if !has_key(v.participants, owner) {
        (v, Err(PollError::NotAParticipant))
    } else {
        (PollView { rankings: upsert(v.rankings, owner, rankings), ..v }, Ok(()))
    }
}

pub open spec fn start_vote_step(v: PollView, owner: Seq<char>) -> Outcome {
    if owner != v.admin_id {
        (v, Err(PollError::NotAdmin))
    } else {
        (PollView { has_started: true, ..v }, Ok(()))
    }
}

pub open spec fn close_step(v: PollView, owner: Seq<char>) -> Outcome {
    if owner != v.admin_id {
        (v, Err(PollError::NotAdmin))
    } else if v.is_closed {
        (v, Err(PollError::AlreadyClosed))
    } else {
        (
            PollView {
                is_closed: true,
                results: tally(v.rankings, v.nominations, v.votes_per_voter as nat),
                ..v
            },
            Ok(()),
        )
    }
}

/// The instances recorded for `creator`, oldest first.
pub open spec fn polls_of(v: PollView, creator: Seq<char>) -> Seq<ChainId> {
    if has_key(v.created_polls, creator) {
        v.created_polls[key_pos(v.created_polls, creator)].1
    } else {
        seq![]
    }
}

pub open spec fn record_poll_step(v: PollView, creator: Seq<char>, chain_id: ChainId) -> PollView {
    PollView {
        created_polls: upsert(v.created_polls, creator, polls_of(v, creator).push(chain_id)),
        ..v
    }
}

/// A freshly initialized instance has exactly one participant, the admin
/// named "Admin"; voting has not started, the poll is open, and there are
/// no results.
pub proof fn lemma_initialize_fresh(topic: Seq<char>, votes_per_voter: u32, admin_id: Seq<char>)
    ensures
        initialize_step(empty_poll(), topic, votes_per_voter, admin_id).participants == seq![(admin_id, admin_name())],
        !initialize_step(empty_poll(), topic, votes_per_voter, admin_id).has_started,
        !initialize_step(empty_poll(), topic, votes_per_voter, admin_id).is_closed,
        initialize_step(empty_poll(), topic, votes_per_voter, admin_id).results.len() == 0,
        initialize_step(empty_poll(), topic, votes_per_voter, admin_id).admin_id == admin_id,
{
    let e = empty_poll();
    assert(!has_key(e.participants, admin_id));
    assert(upsert(e.participants, admin_id, admin_name()) =~= seq![(admin_id, admin_name())]);
}

/// The empty state is well formed.
pub proof fn lemma_empty_well_formed()
    ensures
        well_formed(empty_poll()),
{
}

/// The identifier a nomination gets is not yet in use.
proof fn lemma_fresh_nom_id(v: PollView)
    requires
        well_formed(v),
    ensures
        !has_key(v.nominations, nom_id(v.nominations.len())),
{
    let n = v.nominations.len();
    if has_key(v.nominations, nom_id(n)) {
        let j = choose|j: int| 0 <= j < n && #[trigger] v.nominations[j].0 == nom_id(n);
        assert(nom_below(v.nominations[j].0, n));
        let i = choose|i: nat| i < n && v.nominations[j].0 == nom_id(i);
        lemma_nom_id_injective(i, n);
    }
}

/// Every transition keeps the state well formed.
pub proof fn lemma_steps_keep_well_formed(
    v: PollView,
    topic: Seq<char>,
    votes_per_voter: u32,
    user: Seq<char>,
    words: Seq<char>,
    rankings: Seq<Seq<char>>,
    chain_id: ChainId,
)
    requires
        well_formed(v),
    ensures
        well_formed(initialize_step(v, topic, votes_per_voter, user)),
        well_formed(join_step(v, words, user).0),
        well_formed(nominate_step(v, words, user).0),
        well_formed(vote_step(v, rankings, user).0),
        well_formed(start_vote_step(v, user).0),
        well_formed(close_step(v, user).0),
        well_formed(record_poll_step(v, user, chain_id)),
{
    lemma_upsert_sorted(v.participants, user, admin_name());
    lemma_upsert_sorted(v.participants, user, words);
    lemma_upsert_sorted(v.rankings, user, rankings);
    lemma_upsert_sorted(v.created_polls, user, polls_of(v, user).push(chain_id));
    let n = v.nominations.len();
    let k = nom_id(n);
    lemma_upsert_sorted(v.nominations, k, (user, words));
    lemma_fresh_nom_id(v);
    if nominate_step(v, words, user).1 is Ok {
        let w = nominate_step(v, words, user).0;
        let p = insert_pos(v.nominations, k);
        lemma_insert_pos(v.nominations, k);
        assert(w.nominations == v.nominations.insert(p, (k, (user, words))));
        assert forall|j: int| 0 <= j < w.nominations.len() implies nom_below(
            #[trigger] w.nominations[j].0,
            w.nominations.len(),
        ) by {
            if j < p {
                assert(w.nominations[j] == v.nominations[j]);
                assert(nom_below(v.nominations[j].0, n));
            } else if j > p {
                assert(w.nominations[j] == v.nominations[j - 1]);
                assert(nom_below(v.nominations[j - 1].0, n));
            } else {
                assert(w.nominations[j].0 == nom_id(n));
            }
        }
    }
}

/// Nomination identifiers: a successful nomination stores its entry under
/// `nom_<count>`, where `count` is the number of earlier nominations; that
/// identifier was never given before, so the count grows by one, and every
/// identifier stays `nom_<i>` for some `i` below the count.
pub proof fn lemma_nomination_ids(v: PollView, text: Seq<char>, owner: Seq<char>)
    requires
        well_formed(v),
    ensures
        !has_key(v.nominations, nom_id(v.nominations.len())),
        nominate_step(v, text, owner).1 is Ok ==> nominate_step(v, text, owner).0.nominations
            == v.nominations.insert(
            insert_pos(v.nominations, nom_id(v.nominations.len())),
            (nom_id(v.nominations.len()), (owner, text)),
        ),
        nominate_step(v, text, owner).1 is Ok ==> nominate_step(v, text, owner).0.nominations.len()
            == v.nominations.len() + 1,
        well_formed(nominate_step(v, text, owner).0),
{
    lemma_fresh_nom_id(v);
    lemma_insert_pos(v.nominations, nom_id(v.nominations.len()));
    lemma_steps_keep_well_formed(v, text, 0, owner, text, seq![], ChainId { words: [0, 0, 0, 0] });
}

/// A ranking longer than `votes_per_voter` is always rejected and changes nothing.
pub proof fn lemma_vote_too_many_rejected(v: PollView, rankings: Seq<Seq<char>>, owner: Seq<char>)
    requires
        rankings.len() > v.votes_per_voter,
    ensures
        vote_step(v, rankings, owner).1 is Err,
        vote_step(v, rankings, owner).0 == v,
{
}

/// Closing is exactly-once: after a successful close, closing again fails
/// with `AlreadyClosed` and leaves the results, and all else, unchanged.
pub proof fn lemma_close_exactly_once(v: PollView, owner: Seq<char>)
    requires
        close_step(v, owner).1 is Ok,
    ensures
        close_step(close_step(v, owner).0, owner) == (close_step(v, owner).0, Err::<(), PollError>(PollError::AlreadyClosed)),
{
}

} // verus!

//! Read-only queries over a poll instance's state.

use vstd::prelude::*;
use crate::keyed::{find_key, lemma_first_unique, sorted_keys, KeyedEntry};
use crate::state::{polls_of, well_formed, PollState, PollView};
use crate::types::{ChainId, NominationEntry, ParticipantEntry, RankingEntry, ResultEntry};

verus! {

/// Answers queries about one poll instance.
pub struct MealVotingService {
    pub state: PollState,
}

fn copy_ids(v: &Vec<String>) -> (r: Vec<String>)
    ensures
        r.deep_view() == v.deep_view(),
{
    let mut r: Vec<String> = Vec::new();
    let mut i: usize = 0;
    while i < v.len()
        invariant
            i <= v@.len(),
            r@.len() == i,
            forall|k: int| 0 <= k < i ==> (#[trigger] r@[k]).deep_view() == v@[k].deep_view(),
        decreases v@.len() - i,
    {
        r.push(v[i].clone());
        assert(r.deep_view() =~= v.deep_view().take(i + 1));
        i = i + 1;
    }
    assert(v.deep_view().take(v@.len() as int) =~= v.deep_view());
    r
}

impl MealVotingService {
    pub fn new(state: PollState) -> (r: Self)
        ensures
            r.state@ == state@,
    {
        MealVotingService { state }
    }

    /// The abstract state queried.
    pub open spec fn poll(&self) -> PollView {
        self.state@
    }

    pub fn topic(&self) -> (r: String)
        ensures
            r@ == self.poll().topic,
    {
        self.state.topic.clone()
    }

    pub fn admin_id(&self) -> (r: String)
        ensures
            r@ == self.poll().admin_id,
    {
        self.state.admin_id.clone()
    }

    pub fn votes_per_voter(&self) -> (r: u32)
        ensures
            r == self.poll().votes_per_voter,
    {
        self.state.votes_per_voter
    }

    pub fn has_started(&self) -> (r: bool)
        ensures
            r == self.poll().has_started,
    {
        self.state.has_started
    }

    pub fn is_closed(&self) -> (r: bool)
        ensures
            r == self.poll().is_closed,
    {
        self.state.is_closed
    }

    /// The computed results (empty until the poll closes).
    pub fn results(&self) -> (r: Vec<ResultEntry>)
        ensures
            r.deep_view() == self.poll().results,
    {
        let v = &self.state.results;
        let mut r: Vec<ResultEntry> = Vec::new();
        let mut i: usize = 0;
        while i < v.len()
            invariant
                i <= v@.len(),
                r@.len() == i,
                forall|k: int| 0 <= k < i ==> (#[trigger] r@[k]).deep_view() == v@[k].deep_view(),
            decreases v@.len() - i,
        {
            let e = &v[i];
            r.push(ResultEntry {
                nomination_id: e.nomination_id.clone(),
                nomination_text: e.nomination_text.clone(),
                score: e.score,
            });
            i = i + 1;
        }
        assert(r.deep_view() =~= v.deep_view());
        r
    }

    /// All nominations, in ascending identifier order (on a well-formed
    /// state, where the nominations are a key-ordered map).
    pub fn nominations(&self) -> (r: Vec<NominationEntry>)
        ensures
            r.deep_view() == self.poll().nominations,
            well_formed(self.poll()) ==> sorted_keys(r.deep_view()),
    {
        let v = &self.state.nominations;
        let mut r: Vec<NominationEntry> = Vec::new();
        let mut i: usize = 0;
        while i < v.len()
            invariant
                i <= v@.len(),
                r@.len() == i,
                forall|k: int| 0 <= k < i ==> (#[trigger] r@[k]).deep_view() == v@[k].deep_view(),
            decreases v@.len() - i,
        {
            let e = &v[i];
            r.push(NominationEntry {
                nomination_id: e.nomination_id.clone(),
                user_id: e.user_id.clone(),
                text: e.text.clone(),
            });
            i = i + 1;
        }
        assert(r.deep_view() =~= v.deep_view());
        r
    }

    /// All participants, in ascending user-identifier order (on a
    /// well-formed state, where the participants are a key-ordered map).
    pub fn participants(&self) -> (r: Vec<ParticipantEntry>)
        ensures
            r.deep_view() == self.poll().participants,
            well_formed(self.poll()) ==> sorted_keys(r.deep_view()),
    {
        let v = &self.state.participants;
        let mut r: Vec<ParticipantEntry> = Vec::new();
        let mut i: usize = 0;
        while i < v.len()
            invariant
                i <= v@.len(),
                r@.len() == i,
                forall|k: int| 0 <= k < i ==> (#[trigger] r@[k]).deep_view() == v@[k].deep_view(),
            decreases v@.len() - i,
        {
            let e = &v[i];
            r.push(ParticipantEntry { user_id: e.user_id.clone(), name: e.name.clone() });
            i = i + 1;
        }
        assert(r.deep_view() =~= v.deep_view());
        r
    }

    /// The number of participants, as a `u32` (wrapping past `u32::MAX`).
    pub fn participant_count(&self) -> (r: u32)
        ensures
            r == self.poll().participants.len() as u32,
    {
        #[verifier::truncate]
        let r = self.state.participants.len() as u32;
        r
    }

    /// The instances spawned by `user_id`, oldest first.
    pub fn created_polls(&self, user_id: String) -> (r: Vec<ChainId>)
        ensures
            r@ == polls_of(self.poll(), user_id@),
    {
        let v = &self.state.created_polls;
        let ghost dv = v.deep_view();
        assert(forall|j: int| 0 <= j < v@.len() ==> (#[trigger] dv[j]).0 == v@[j].key_view());
        match find_key(v, &user_id) {
            Some(i) => {
                proof {
                    lemma_first_unique(dv, user_id@, i as int);
                }
                let ids = &v[i].chain_ids;
                let mut r: Vec<ChainId> = Vec::new();
                let mut j: usize = 0;
                while j < ids.len()
                    invariant
                        j <= ids@.len(),
                        r@ == ids@.take(j as int),
                    decreases ids@.len() - j,
                {
                    r.push(ids[j]);
                    assert(r@ =~= ids@.take(j + 1));
                    j = j + 1;
                }
                assert(ids@.take(ids@.len() as int) =~= ids@);
                assert(dv[i as int].1 == ids@);
                r
            },
            None => {
                let r: Vec<ChainId> = Vec::new();
                assert(r@ =~= seq![]);
                r
            },
        }
    }

    /// All rankings, in ascending voter-identifier order (on a well-formed
    /// state, where the rankings are a key-ordered map).
    pub fn rankings(&self) -> (r: Vec<RankingEntry>)
        ensures
            r.deep_view() == self.poll().rankings,
            well_formed(self.poll()) ==> sorted_keys(r.deep_view()),
    {
        let v = &self.state.rankings;
        let mut r: Vec<RankingEntry> = Vec::new();
        let mut i: usize = 0;
        while i < v.len()
            invariant
                i <= v@.len(),
                r@.len() == i,
                forall|k: int| 0 <= k < i ==> (#[trigger] r@[k]).deep_view() == v@[k].deep_view(),
            decreases v@.len() - i,
        {
            let e = &v[i];
            r.push(RankingEntry { user_id: e.user_id.clone(), nomination_ids: copy_ids(&e.nomination_ids) });
            i = i + 1;
        }
        assert(r.deep_view() =~= v.deep_view());
        r
    }
}

} // verus!

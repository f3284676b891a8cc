//! The records a poll stores and reports, the operation and message sets,
//! and the failure kinds.

use vstd::prelude::*;

verus! {

/// Marker for the poll's interface: its operations, messages and queries.
pub struct MealVotingAbi;

/// Identifier of a poll instance, as handed out by the runtime that spawns it.
#[derive(Clone, Copy, Debug, PartialEq, Eq)]
pub struct ChainId {
    pub words: [u64; 4],
}

/// Operations executed directly on the instance the caller is routed to.
#[derive(Clone, Debug, PartialEq, Eq)]
pub enum Operation {
    /// Create a new poll instance with a topic and votes per voter.
    CreatePoll { topic: String, votes_per_voter: u32, owner: String },
    /// Join the poll as a participant.
    Join { name: String, owner: String },
    /// Add a nomination to the poll.
    Nominate { text: String, owner: String },
    /// Submit rankings for the nominations.
    Vote { rankings: Vec<String>, owner: String },
    /// Start the voting phase (admin only).
    StartVote { owner: String },
    /// Close the poll and compute results (admin only).
    ClosePoll { owner: String },
}

/// Messages addressed to a specific poll instance, carrying the acting identity.
#[derive(Clone, Debug, PartialEq, Eq)]
pub enum Message {
    /// Initialize a freshly spawned poll instance.
    InitializePoll { topic: String, votes_per_voter: u32, admin_id: String },
    /// Nominate on a poll owned elsewhere.
    Nominate { user_id: String, text: String },
    /// Vote on a poll owned elsewhere.
    Vote { user_id: String, rankings: Vec<String> },
    /// Start the voting phase (admin only).
    StartVote { user_id: String },
    /// Close the poll (admin only).
    ClosePoll { user_id: String },
}

/// Why an operation or message was rejected; a rejected call changes nothing.
#[derive(Clone, Copy, Debug, PartialEq, Eq, Structural)]
pub enum PollError {
    AuthenticationMissing,
    PollClosed,
    VotingAlreadyStarted,
    VotingNotStarted,
    NotAParticipant,
    TooManyRankings,
    NotAdmin,
    AlreadyClosed,
}

/// A single nomination (e.g., "Pizza Place").
#[derive(Clone, Debug, PartialEq, Eq)]
pub struct Nomination {
    pub user_id: String,
    pub text: String,
}

/// A nomination with its identifier.
#[derive(Clone, Debug, PartialEq, Eq)]
pub struct NominationEntry {
    pub nomination_id: String,
    pub user_id: String,
    pub text: String,
}

/// A participant: user identifier and display name.
#[derive(Clone, Debug, PartialEq, Eq)]
pub struct ParticipantEntry {
    pub user_id: String,
    pub name: String,
}

/// One line of the tally.
#[derive(Clone, Debug, PartialEq, Eq)]
pub struct ResultEntry {
    pub nomination_id: String,
    pub nomination_text: String,
    pub score: u64,
}

/// A voter's ranking: nomination identifiers, first choice first.
#[derive(Clone, Debug, PartialEq, Eq)]
pub struct RankingEntry {
    pub user_id: String,
    pub nomination_ids: Vec<String>,
}

/// The instances one creator has spawned, oldest first.
#[derive(Clone, Debug, PartialEq, Eq)]
pub struct CreatedPollsEntry {
    pub user_id: String,
    pub chain_ids: Vec<ChainId>,
}

impl DeepView for NominationEntry {
    type V = (Seq<char>, (Seq<char>, Seq<char>));

    open spec fn deep_view(&self) -> Self::V {
        (self.nomination_id@, (self.user_id@, self.text@))
    }
}

impl DeepView for ParticipantEntry {
    type V = (Seq<char>, Seq<char>);

    open spec fn deep_view(&self) -> Self::V {
        (self.user_id@, self.name@)
    }
}

impl DeepView for ResultEntry {
    type V = (Seq<char>, Seq<char>, u64);

    open spec fn deep_view(&self) -> Self::V {
        (self.nomination_id@, self.nomination_text@, self.score)
    }
}

impl DeepView for RankingEntry {
    type V = (Seq<char>, Seq<Seq<char>>);

    open spec fn deep_view(&self) -> Self::V {
        (self.user_id@, self.nomination_ids.deep_view())
    }
}

impl DeepView for CreatedPollsEntry {
    type V = (Seq<char>, Seq<ChainId>);

    open spec fn deep_view(&self) -> Self::V {
        (self.user_id@, self.chain_ids@)
    }
}

} // verus!

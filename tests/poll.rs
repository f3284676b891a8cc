use meal_voting::contract::MealVotingContract;
use meal_voting::service::MealVotingService;
use meal_voting::tally::compute_results;
use meal_voting::text::{less_than, nomination_id};
use meal_voting::types::{
    ChainId, Message, NominationEntry, Operation, ParticipantEntry, PollError, RankingEntry,
    ResultEntry,
};

fn s(x: &str) -> String {
    x.to_string()
}

fn ids(xs: &[&str]) -> Vec<String> {
    xs.iter().map(|x| x.to_string()).collect()
}

fn initialized(votes_per_voter: u32) -> MealVotingContract {
    let mut c = MealVotingContract::new();
    let m = Message::InitializePoll {
        topic: s("Lunch"),
        votes_per_voter,
        admin_id: s("admin"),
    };
    assert_eq!(c.execute_message(m), Ok(()));
    c
}

fn op(c: &mut MealVotingContract, o: Operation) -> Result<Option<Message>, PollError> {
    c.execute_operation(o, true)
}

fn join(c: &mut MealVotingContract, name: &str, owner: &str) {
    let r = op(c, Operation::Join { name: s(name), owner: s(owner) });
    assert_eq!(r, Ok(None));
}

fn nominate(c: &mut MealVotingContract, text: &str, owner: &str) -> Result<Option<Message>, PollError> {
    op(c, Operation::Nominate { text: s(text), owner: s(owner) })
}

fn vote(c: &mut MealVotingContract, rankings: &[&str], owner: &str) -> Result<Option<Message>, PollError> {
    op(c, Operation::Vote { rankings: ids(rankings), owner: s(owner) })
}

fn result(id: &str, text: &str, score: u64) -> ResultEntry {
    ResultEntry { nomination_id: s(id), nomination_text: s(text), score }
}

fn view(c: &MealVotingContract) -> MealVotingService {
    MealVotingService::new(c.state.clone())
}

#[test]
fn fresh_instance_has_only_admin() {
    let c = initialized(3);
    let v = view(&c);
    assert_eq!(v.participants(), vec![ParticipantEntry { user_id: s("admin"), name: s("Admin") }]);
    assert_eq!(v.participant_count(), 1);
    assert!(!v.has_started());
    assert!(!v.is_closed());
    assert!(v.results().is_empty());
    assert_eq!(v.topic(), "Lunch");
    assert_eq!(v.admin_id(), "admin");
    assert_eq!(v.votes_per_voter(), 3);
}

#[test]
fn nomination_ids_are_sequential() {
    let mut c = initialized(2);
    join(&mut c, "Alice", "alice");
    for i in 0..12 {
        assert_eq!(nominate(&mut c, &format!("option {}", i), "alice"), Ok(None));
    }
    let noms = view(&c).nominations();
    assert_eq!(noms.len(), 12);
    let mut expected: Vec<String> = (0..12).map(|i| format!("nom_{}", i)).collect();
    expected.sort();
    let got: Vec<String> = noms.iter().map(|n| n.nomination_id.clone()).collect();
    assert_eq!(got, expected);
    for n in noms.iter() {
        let number = &n.nomination_id["nom_".len()..];
        assert_eq!(n.user_id, "alice");
        assert_eq!(n.text, format!("option {}", number));
    }
}

#[test]
fn nominations_listed_in_key_order() {
    let mut c = initialized(2);
    for i in 0..11 {
        assert_eq!(nominate(&mut c, &format!("n{}", i), "admin"), Ok(None));
    }
    let got: Vec<String> = view(&c).nominations().iter().map(|n| n.nomination_id.clone()).collect();
    assert_eq!(
        got,
        ids(&["nom_0", "nom_1", "nom_10", "nom_2", "nom_3", "nom_4", "nom_5", "nom_6", "nom_7", "nom_8", "nom_9"])
    );
}

#[test]
fn participants_and_rankings_listed_in_key_order() {
    let mut c = initialized(2);
    join(&mut c, "Bob", "bob");
    join(&mut c, "Alice", "alice");
    assert_eq!(
        view(&c).participants(),
        vec![
            ParticipantEntry { user_id: s("admin"), name: s("Admin") },
            ParticipantEntry { user_id: s("alice"), name: s("Alice") },
            ParticipantEntry { user_id: s("bob"), name: s("Bob") },
        ]
    );
    assert_eq!(nominate(&mut c, "Pizza", "bob"), Ok(None));
    assert_eq!(op(&mut c, Operation::StartVote { owner: s("admin") }), Ok(None));
    assert_eq!(vote(&mut c, &["nom_0"], "bob"), Ok(None));
    assert_eq!(vote(&mut c, &["nom_0"], "alice"), Ok(None));
    assert_eq!(
        view(&c).rankings(),
        vec![
            RankingEntry { user_id: s("alice"), nomination_ids: ids(&["nom_0"]) },
            RankingEntry { user_id: s("bob"), nomination_ids: ids(&["nom_0"]) },
        ]
    );
}

#[test]
fn nomination_id_renders_decimal() {
    assert_eq!(nomination_id(0), "nom_0");
    assert_eq!(nomination_id(9), "nom_9");
    assert_eq!(nomination_id(10), "nom_10");
    assert_eq!(nomination_id(123), "nom_123");
    assert_eq!(nomination_id(usize::MAX), format!("nom_{}", usize::MAX));
}

#[test]
fn lexicographic_order() {
    assert!(less_than(&s("nom_10"), &s("nom_2")));
    assert!(!less_than(&s("nom_2"), &s("nom_10")));
    assert!(less_than(&s("nom"), &s("nom_0")));
    assert!(!less_than(&s("nom_0"), &s("nom_0")));
    assert!(less_than(&s(""), &s("a")));
    assert!(less_than(&s("Z"), &s("a")));
    assert!(less_than(&s("z"), &s("é")));
}

#[test]
fn too_many_rankings_rejected_in_any_phase() {
    let mut c = initialized(1);
    join(&mut c, "Alice", "alice");
    assert_eq!(nominate(&mut c, "Pizza", "alice"), Ok(None));
    assert_eq!(nominate(&mut c, "Sushi", "alice"), Ok(None));
    assert!(vote(&mut c, &["nom_0", "nom_1"], "alice").is_err());
    assert_eq!(op(&mut c, Operation::StartVote { owner: s("admin") }), Ok(None));
    assert_eq!(vote(&mut c, &["nom_0", "nom_1"], "alice"), Err(PollError::TooManyRankings));
    assert_eq!(vote(&mut c, &["nom_0", "nom_1"], "stranger"), Err(PollError::TooManyRankings));
    assert!(view(&c).rankings().is_empty());
    assert_eq!(vote(&mut c, &["nom_1"], "alice"), Ok(None));
    assert_eq!(op(&mut c, Operation::ClosePoll { owner: s("admin") }), Ok(None));
    assert!(vote(&mut c, &["nom_0", "nom_1"], "alice").is_err());
}

#[test]
fn close_is_exactly_once() {
    let mut c = initialized(2);
    join(&mut c, "Alice", "alice");
    assert_eq!(nominate(&mut c, "Pizza", "alice"), Ok(None));
    assert_eq!(op(&mut c, Operation::StartVote { owner: s("admin") }), Ok(None));
    assert_eq!(vote(&mut c, &["nom_0"], "alice"), Ok(None));
    assert_eq!(op(&mut c, Operation::ClosePoll { owner: s("admin") }), Ok(None));
    let first = view(&c).results();
    assert_eq!(first, vec![result("nom_0", "Pizza", 2)]);
    assert_eq!(op(&mut c, Operation::ClosePoll { owner: s("admin") }), Err(PollError::AlreadyClosed));
    assert_eq!(c.execute_message(Message::ClosePoll { user_id: s("admin") }), Err(PollError::AlreadyClosed));
    assert_eq!(view(&c).results(), first);
    assert!(view(&c).is_closed());
}

#[test]
fn tally_scores_and_determinism() {
    let nominations = vec![
        NominationEntry { nomination_id: s("nom_0"), user_id: s("a"), text: s("Pizza") },
        NominationEntry { nomination_id: s("nom_1"), user_id: s("a"), text: s("Sushi") },
        NominationEntry { nomination_id: s("nom_2"), user_id: s("b"), text: s("Tacos") },
    ];
    let rankings = vec![
        RankingEntry { user_id: s("a"), nomination_ids: ids(&["nom_2", "nom_0", "nom_1"]) },
        RankingEntry { user_id: s("b"), nomination_ids: ids(&["nom_0", "nom_2"]) },
        RankingEntry { user_id: s("c"), nomination_ids: ids(&["nom_1"]) },
    ];
    let r1 = compute_results(&rankings, &nominations, 3);
    // nom_2: 3 + 2; nom_0: 2 + 3; nom_1: 1 + 3
    assert_eq!(
        r1,
        vec![result("nom_0", "Pizza", 5), result("nom_2", "Tacos", 5), result("nom_1", "Sushi", 4)]
    );
    let r2 = compute_results(&rankings, &nominations, 3);
    assert_eq!(r1, r2);
}

#[test]
fn tally_positions_past_votes_per_voter_score_zero() {
    let nominations = vec![NominationEntry { nomination_id: s("nom_0"), user_id: s("a"), text: s("Pizza") }];
    let rankings = vec![RankingEntry { user_id: s("a"), nomination_ids: ids(&["x", "y", "nom_0"]) }];
    let r = compute_results(&rankings, &nominations, 2);
    assert_eq!(r, vec![result("x", "Unknown", 2), result("y", "Unknown", 1), result("nom_0", "Pizza", 0)]);
}

#[test]
fn tally_repeated_choice_counts_each_position() {
    let rankings = vec![RankingEntry { user_id: s("a"), nomination_ids: ids(&["nom_0", "nom_0"]) }];
    let r = compute_results(&rankings, &Vec::new(), 2);
    assert_eq!(r, vec![result("nom_0", "Unknown", 3)]);
}

#[test]
fn tally_empty() {
    assert!(compute_results(&Vec::new(), &Vec::new(), 5).is_empty());
}

#[test]
fn tally_ties_in_ascending_id_order() {
    let mut c = initialized(1);
    join(&mut c, "Alice", "alice");
    for i in 0..11 {
        assert_eq!(nominate(&mut c, &format!("n{}", i), "alice"), Ok(None));
    }
    assert_eq!(op(&mut c, Operation::StartVote { owner: s("admin") }), Ok(None));
    let voters = ["v2", "v10", "v1"];
    for v in voters.iter() {
        join(&mut c, v, v);
    }
    assert_eq!(vote(&mut c, &["nom_2"], "v2"), Ok(None));
    assert_eq!(vote(&mut c, &["nom_10"], "v10"), Ok(None));
    assert_eq!(vote(&mut c, &["nom_1"], "v1"), Ok(None));
    assert_eq!(op(&mut c, Operation::ClosePoll { owner: s("admin") }), Ok(None));
    assert_eq!(
        view(&c).results(),
        vec![result("nom_1", "n1", 1), result("nom_10", "n10", 1), result("nom_2", "n2", 1)]
    );
}

#[test]
fn pizza_sushi_scenario() {
    let mut c = initialized(2);
    join(&mut c, "Alice", "alice");
    join(&mut c, "Bob", "bob");
    assert_eq!(nominate(&mut c, "Pizza", "alice"), Ok(None));
    assert_eq!(nominate(&mut c, "Sushi", "bob"), Ok(None));
    assert_eq!(op(&mut c, Operation::StartVote { owner: s("admin") }), Ok(None));
    assert_eq!(vote(&mut c, &["nom_0", "nom_1"], "alice"), Ok(None));
    assert_eq!(vote(&mut c, &["nom_1"], "bob"), Ok(None));
    assert_eq!(op(&mut c, Operation::ClosePoll { owner: s("admin") }), Ok(None));
    assert_eq!(view(&c).results(), vec![result("nom_1", "Sushi", 3), result("nom_0", "Pizza", 2)]);
}

#[test]
fn nominate_after_start_fails() {
    let mut c = initialized(2);
    join(&mut c, "Alice", "alice");
    assert_eq!(nominate(&mut c, "Pizza", "alice"), Ok(None));
    assert_eq!(op(&mut c, Operation::StartVote { owner: s("admin") }), Ok(None));
    let before = view(&c).nominations();
    assert_eq!(nominate(&mut c, "Sushi", "alice"), Err(PollError::VotingAlreadyStarted));
    assert_eq!(
        c.execute_message(Message::Nominate { user_id: s("alice"), text: s("Sushi") }),
        Err(PollError::VotingAlreadyStarted)
    );
    assert_eq!(view(&c).nominations(), before);
}

#[test]
fn non_admin_cannot_start_or_close() {
    let mut c = initialized(2);
    join(&mut c, "Alice", "alice");
    assert_eq!(op(&mut c, Operation::StartVote { owner: s("alice") }), Err(PollError::NotAdmin));
    assert_eq!(c.execute_message(Message::StartVote { user_id: s("alice") }), Err(PollError::NotAdmin));
    assert!(!view(&c).has_started());
    assert_eq!(op(&mut c, Operation::ClosePoll { owner: s("alice") }), Err(PollError::NotAdmin));
    assert_eq!(c.execute_message(Message::ClosePoll { user_id: s("alice") }), Err(PollError::NotAdmin));
    assert!(!view(&c).is_closed());
}

#[test]
fn start_vote_twice_is_no_error() {
    let mut c = initialized(2);
    assert_eq!(op(&mut c, Operation::StartVote { owner: s("admin") }), Ok(None));
    assert_eq!(op(&mut c, Operation::StartVote { owner: s("admin") }), Ok(None));
    assert!(view(&c).has_started());
}

#[test]
fn create_poll_needs_authentication() {
    let mut c = MealVotingContract::new();
    let o = Operation::CreatePoll { topic: s("Dinner"), votes_per_voter: 3, owner: s("carol") };
    assert_eq!(c.execute_operation(o, false), Err(PollError::AuthenticationMissing));
}

#[test]
fn create_poll_emits_initialization_and_records() {
    let mut c = MealVotingContract::new();
    let o = Operation::CreatePoll { topic: s("Dinner"), votes_per_voter: 3, owner: s("carol") };
    let r = c.execute_operation(o, true);
    assert_eq!(
        r,
        Ok(Some(Message::InitializePoll { topic: s("Dinner"), votes_per_voter: 3, admin_id: s("carol") }))
    );
    let a = ChainId { words: [1, 2, 3, 4] };
    let b = ChainId { words: [5, 6, 7, 8] };
    c.record_created_poll(s("carol"), a);
    c.record_created_poll(s("dave"), b);
    c.record_created_poll(s("carol"), b);
    let v = view(&c);
    assert_eq!(v.created_polls(s("carol")), vec![a, b]);
    assert_eq!(v.created_polls(s("dave")), vec![b]);
    assert!(v.created_polls(s("erin")).is_empty());
}

#[test]
fn join_overwrites_name_and_works_while_voting() {
    let mut c = initialized(2);
    join(&mut c, "Alice", "alice");
    join(&mut c, "Al", "alice");
    assert_eq!(op(&mut c, Operation::StartVote { owner: s("admin") }), Ok(None));
    join(&mut c, "Bob", "bob");
    assert_eq!(
        view(&c).participants(),
        vec![
            ParticipantEntry { user_id: s("admin"), name: s("Admin") },
            ParticipantEntry { user_id: s("alice"), name: s("Al") },
            ParticipantEntry { user_id: s("bob"), name: s("Bob") },
        ]
    );
    assert_eq!(view(&c).participant_count(), 3);
}

#[test]
fn join_after_close_fails() {
    let mut c = initialized(2);
    assert_eq!(op(&mut c, Operation::ClosePoll { owner: s("admin") }), Ok(None));
    let r = op(&mut c, Operation::Join { name: s("Alice"), owner: s("alice") });
    assert_eq!(r, Err(PollError::PollClosed));
    assert_eq!(view(&c).participant_count(), 1);
}

#[test]
fn nominate_on_closed_unstarted_poll_is_permitted() {
    let mut c = initialized(2);
    assert_eq!(op(&mut c, Operation::ClosePoll { owner: s("admin") }), Ok(None));
    assert_eq!(nominate(&mut c, "Late", "admin"), Ok(None));
    assert_eq!(view(&c).nominations().len(), 1);
    assert!(view(&c).results().is_empty());
}

#[test]
fn non_participant_cannot_nominate_or_vote() {
    let mut c = initialized(2);
    assert_eq!(nominate(&mut c, "Pizza", "mallory"), Err(PollError::NotAParticipant));
    assert_eq!(
        c.execute_message(Message::Nominate { user_id: s("mallory"), text: s("Pizza") }),
        Err(PollError::NotAParticipant)
    );
    assert_eq!(op(&mut c, Operation::StartVote { owner: s("admin") }), Ok(None));
    assert_eq!(vote(&mut c, &["nom_0"], "mallory"), Err(PollError::NotAParticipant));
    assert_eq!(
        c.execute_message(Message::Vote { user_id: s("mallory"), rankings: ids(&["nom_0"]) }),
        Err(PollError::NotAParticipant)
    );
    assert!(view(&c).rankings().is_empty());
}

#[test]
fn vote_before_start_fails() {
    let mut c = initialized(2);
    assert_eq!(vote(&mut c, &["nom_0"], "admin"), Err(PollError::VotingNotStarted));
}

#[test]
fn vote_after_close_fails() {
    let mut c = initialized(2);
    assert_eq!(op(&mut c, Operation::StartVote { owner: s("admin") }), Ok(None));
    assert_eq!(op(&mut c, Operation::ClosePoll { owner: s("admin") }), Ok(None));
    assert_eq!(vote(&mut c, &["nom_0"], "admin"), Err(PollError::PollClosed));
}

#[test]
fn revote_replaces_ranking() {
    let mut c = initialized(2);
    assert_eq!(nominate(&mut c, "Pizza", "admin"), Ok(None));
    assert_eq!(nominate(&mut c, "Sushi", "admin"), Ok(None));
    assert_eq!(op(&mut c, Operation::StartVote { owner: s("admin") }), Ok(None));
    assert_eq!(vote(&mut c, &["nom_0", "nom_1"], "admin"), Ok(None));
    let r = c.execute_message(Message::Vote { user_id: s("admin"), rankings: ids(&["nom_1"]) });
    assert_eq!(r, Ok(()));
    assert_eq!(
        view(&c).rankings(),
        vec![RankingEntry { user_id: s("admin"), nomination_ids: ids(&["nom_1"]) }]
    );
    assert_eq!(op(&mut c, Operation::ClosePoll { owner: s("admin") }), Ok(None));
    assert_eq!(view(&c).results(), vec![result("nom_1", "Sushi", 2)]);
}

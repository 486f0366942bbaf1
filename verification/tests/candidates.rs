use ballotchain::candidate::Candidate;
use ballotchain::candidates::Candidates;

#[test]
fn candidate_new_keeps_fields() {
    let c = Candidate::new("Ahmet".to_string(), 2, 7);
    assert_eq!(c.name, "Ahmet");
    assert_eq!(c.candidate_id, 2);
    assert_eq!(c.vote_count, 7);
}

#[test]
fn candidates_add_and_find() {
    let mut cs = Candidates::new();
    assert!(cs.candidates.is_empty());
    assert!(!cs.contains_id(1));
    cs.add_candidate(Candidate::new("a".to_string(), 1, 0));
    cs.add_candidate(Candidate::new("b".to_string(), 2, 0));
    cs.add_candidate(Candidate::new("c".to_string(), 1, 0));
    assert_eq!(cs.candidates.len(), 3);
    assert_eq!(cs.candidates[1].name, "b");
    assert!(cs.contains_id(1));
    assert!(cs.contains_id(2));
    assert!(!cs.contains_id(3));
    assert_eq!(cs.positions(1), vec![0, 2]);
    assert_eq!(cs.positions(2), vec![1]);
    assert_eq!(cs.positions(3), Vec::<usize>::new());
}

#[test]
fn record_vote_counts_every_match() {
    let mut cs = Candidates::new();
    cs.add_candidate(Candidate::new("a".to_string(), 1, 0));
    cs.add_candidate(Candidate::new("b".to_string(), 2, 5));
    cs.add_candidate(Candidate::new("c".to_string(), 1, 9));
    assert!(cs.record_vote(1));
    assert_eq!(cs.candidates[0].vote_count, 1);
    assert_eq!(cs.candidates[1].vote_count, 5);
    assert_eq!(cs.candidates[2].vote_count, 10);
    assert!(cs.record_vote(4));
    assert_eq!(cs.candidates[0].vote_count, 1);
}

#[test]
fn record_vote_refuses_overflow() {
    let mut cs = Candidates::new();
    cs.add_candidate(Candidate::new("a".to_string(), 1, 3));
    cs.add_candidate(Candidate::new("b".to_string(), 1, u32::MAX));
    assert!(!cs.record_vote(1));
    assert_eq!(cs.candidates[0].vote_count, 3);
    assert_eq!(cs.candidates[1].vote_count, u32::MAX);
}

#[test]
fn candidate_description() {
    let c = Candidate::new("Mehmet Seçilenleroğlu".to_string(), 1, 0);
    assert_eq!(
        c.describe(),
        "Adayın ismi Mehmet Seçilenleroğlu, idsi 1 ve sahip olduğu oy sayısı 0"
    );
    let c = Candidate::new(String::new(), 4_000_000_000, 10);
    assert_eq!(c.describe(), "Adayın ismi , idsi 4000000000 ve sahip olduğu oy sayısı 10");
}

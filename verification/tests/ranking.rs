use batter_rank::ranker::{goes_before, rank, scores_finite, NonFiniteScoreError};
use batter_rank::record::ScoredRecord;

fn entry(name: &str, id: &str, score: f64) -> ScoredRecord {
    ScoredRecord { name: name.to_string(), id: id.to_string(), score: score.to_bits() }
}

fn ids_of(ranking: &[ScoredRecord]) -> Vec<String> {
    ranking.iter().map(|r| r.id.clone()).collect()
}

#[test]
fn ranks_highest_score_first() {
    let ranking = rank(vec![entry("A", "a", -1.5), entry("B", "b", 2.0), entry("C", "c", 0.25)]).unwrap();
    assert_eq!(ids_of(&ranking), vec!["b", "c", "a"]);
}

#[test]
fn rank_keeps_every_record_whole() {
    let input = vec![entry("Low", "3", -0.5), entry("High", "1", 3.5), entry("Mid", "2", 1.0)];
    let ranking = rank(input.clone()).unwrap();
    assert_eq!(ranking, vec![input[1].clone(), input[2].clone(), input[0].clone()]);
}

#[test]
fn rank_breaks_ties_by_ascending_id() {
    let ranking = rank(vec![
        entry("Third", "c", 1.0),
        entry("First", "a", 1.0),
        entry("Top", "z", 2.0),
        entry("Second", "b", 1.0),
    ])
    .unwrap();
    assert_eq!(ids_of(&ranking), vec!["z", "a", "b", "c"]);
}

#[test]
fn rank_does_not_depend_on_input_order() {
    let a = entry("A", "a", 0.5);
    let b = entry("B", "b", 0.5);
    let c = entry("C", "c", -2.0);
    let d = entry("D", "d", 7.0);
    let expected = vec![d.clone(), a.clone(), b.clone(), c.clone()];
    let orders = [
        vec![a.clone(), b.clone(), c.clone(), d.clone()],
        vec![d.clone(), c.clone(), b.clone(), a.clone()],
        vec![b.clone(), d.clone(), a.clone(), c.clone()],
        vec![c.clone(), a.clone(), d.clone(), b.clone()],
    ];
    for order in orders {
        assert_eq!(rank(order).unwrap(), expected);
    }
}

#[test]
fn rank_treats_signed_zeros_as_equal_scores() {
    let ranking = rank(vec![entry("Plus", "b", 0.0), entry("Minus", "a", -0.0)]).unwrap();
    assert_eq!(ids_of(&ranking), vec!["a", "b"]);
    let ranking = rank(vec![entry("Minus", "b", -0.0), entry("Plus", "a", 0.0)]).unwrap();
    assert_eq!(ids_of(&ranking), vec!["a", "b"]);
}

#[test]
fn rank_orders_negative_scores() {
    let ranking = rank(vec![entry("A", "a", -3.0), entry("B", "b", -0.001), entry("C", "c", -250.0)]).unwrap();
    assert_eq!(ids_of(&ranking), vec!["b", "a", "c"]);
}

#[test]
fn rank_of_nothing_is_nothing() {
    assert_eq!(rank(Vec::new()), Ok(Vec::new()));
}

#[test]
fn rank_of_one_record_is_that_record() {
    let only = entry("Only", "1", 0.0);
    assert_eq!(rank(vec![only.clone()]), Ok(vec![only]));
}

#[test]
fn rank_keeps_duplicates() {
    let twin = entry("Twin", "t", 1.0);
    let ranking = rank(vec![twin.clone(), entry("Other", "o", 5.0), twin.clone()]).unwrap();
    assert_eq!(ranking, vec![entry("Other", "o", 5.0), twin.clone(), twin]);
}

#[test]
fn rank_refuses_a_nan_score() {
    let outcome = rank(vec![entry("A", "a", 1.0), entry("B", "b", f64::NAN), entry("C", "c", 2.0)]);
    assert_eq!(outcome, Err(NonFiniteScoreError));
}

#[test]
fn rank_refuses_an_infinite_score() {
    assert_eq!(rank(vec![entry("A", "a", f64::INFINITY)]), Err(NonFiniteScoreError));
    assert_eq!(rank(vec![entry("A", "a", 0.0), entry("B", "b", f64::NEG_INFINITY)]), Err(NonFiniteScoreError));
}

#[test]
fn rank_accepts_the_extreme_finite_scores() {
    let ranking = rank(vec![entry("Least", "l", f64::MIN), entry("Most", "m", f64::MAX)]).unwrap();
    assert_eq!(ids_of(&ranking), vec!["m", "l"]);
}

#[test]
fn ranking_is_sorted_with_adjacent_ties_in_id_order() {
    let mut input = Vec::new();
    for i in 0..60u32 {
        let score = ((i * 37) % 11) as f64 - 5.0;
        input.push(entry(&format!("Batter {i}"), &format!("id{:03}", (i * 17) % 60), score));
    }
    let ranking = rank(input.clone()).unwrap();
    assert_eq!(ranking.len(), input.len());
    for pair in ranking.windows(2) {
        let (first, second) = (f64::from_bits(pair[0].score), f64::from_bits(pair[1].score));
        assert!(first >= second);
        if first == second {
            assert!(pair[0].id < pair[1].id);
        }
    }
    for record in &input {
        assert!(ranking.contains(record));
    }
}

#[test]
fn goes_before_compares_score_then_id() {
    assert!(goes_before(&entry("A", "z", 2.0), &entry("B", "a", 1.0)));
    assert!(!goes_before(&entry("B", "a", 1.0), &entry("A", "z", 2.0)));
    assert!(goes_before(&entry("A", "a", 1.0), &entry("B", "b", 1.0)));
    assert!(!goes_before(&entry("B", "b", 1.0), &entry("A", "a", 1.0)));
    assert!(goes_before(&entry("A", "a", 1.0), &entry("A", "a", 1.0)));
}

#[test]
fn scores_finite_finds_a_stray_score() {
    assert!(scores_finite(&Vec::new()));
    assert!(scores_finite(&vec![entry("A", "a", 1.0), entry("B", "b", -1.0)]));
    assert!(!scores_finite(&vec![entry("A", "a", 1.0), entry("B", "b", f64::NAN)]));
    assert!(!scores_finite(&vec![entry("A", "a", f64::INFINITY), entry("B", "b", 1.0)]));
}

fn reference_order(mut records: Vec<ScoredRecord>) -> Vec<ScoredRecord> {
    records.sort_by(|a, b| {
        f64::from_bits(b.score).partial_cmp(&f64::from_bits(a.score)).unwrap().then(a.id.cmp(&b.id))
    });
    records
}

fn scattered(n: u64) -> Vec<ScoredRecord> {
    let mut state: u64 = 0x2545_f491_4f6c_dd1d ^ n;
    let mut records = Vec::new();
    for i in 0..n {
        state ^= state << 13;
        state ^= state >> 7;
        state ^= state << 17;
        let score = ((state % 41) as f64 - 20.0) / 8.0;
        records.push(entry(&format!("Batter {i}"), &format!("{:05}", (i * 7919) % 100_003), score));
    }
    records
}

#[test]
fn rank_agrees_with_a_sort_of_every_small_size() {
    for n in 0..40 {
        let input = scattered(n);
        assert_eq!(rank(input.clone()).unwrap(), reference_order(input), "size {n}");
    }
}

#[test]
fn rank_orders_a_large_population() {
    let input = scattered(5000);
    assert_eq!(rank(input.clone()).unwrap(), reference_order(input));
}

#[test]
fn rank_leaves_a_ranking_as_it_is() {
    let ranking = rank(scattered(300)).unwrap();
    assert_eq!(rank(ranking.clone()).unwrap(), ranking);
    let mut reversed = ranking.clone();
    reversed.reverse();
    assert_eq!(rank(reversed).unwrap(), ranking);
}

use mutfuzz::corpus::Corpus;
use mutfuzz::diff::byte_diff;
use mutfuzz::mutation::{mutate, substitute, Substitution, ROUNDS};

fn differing(a: &[u8], b: &[u8]) -> usize {
    a.iter().zip(b.iter()).filter(|(x, y)| x != y).count()
}

#[test]
fn rounds_is_eight() {
    assert_eq!(ROUNDS, 8);
}

#[test]
fn mutate_keeps_length_of_single_seed() {
    let seed: Vec<u8> = vec![0x4Du8, 0x5Au8, 0x90u8, 0x00u8];
    let corpus = Corpus::new(vec![seed.clone()]);
    let mut rng = rand::thread_rng();
    for _ in 0..500 {
        let out = mutate(&corpus, &mut rng);
        assert_eq!(out.len(), 4);
        assert!(differing(&seed, &out) <= 4);
        for entry in byte_diff(&seed, &out) {
            assert_eq!(entry.original, seed[entry.offset]);
            assert_ne!(entry.mutated, seed[entry.offset]);
        }
    }
}

#[test]
fn mutate_differs_in_at_most_eight_offsets() {
    let seed: Vec<u8> = (0..=255u8).collect();
    let corpus = Corpus::new(vec![seed.clone()]);
    let mut rng = rand::thread_rng();
    for _ in 0..500 {
        let out = mutate(&corpus, &mut rng);
        assert_eq!(out.len(), seed.len());
        assert!(differing(&seed, &out) <= 8);
        assert!(byte_diff(&seed, &out).len() <= 8);
    }
}

#[test]
fn mutate_works_on_one_byte_seed() {
    let corpus = Corpus::new(vec![vec![0xAAu8]]);
    let mut rng = rand::thread_rng();
    for _ in 0..100 {
        let out = mutate(&corpus, &mut rng);
        assert_eq!(out.len(), 1);
    }
}

#[test]
fn mutate_draws_from_every_seed() {
    let corpus = Corpus::new(vec![vec![0u8; 3], vec![0u8; 5], vec![0u8; 9]]);
    let mut rng = rand::thread_rng();
    let mut seen: [bool; 3] = [false; 3];
    for _ in 0..600 {
        let out = mutate(&corpus, &mut rng);
        match out.len() {
            3 => seen[0] = true,
            5 => seen[1] = true,
            9 => seen[2] = true,
            other => panic!("length {} belongs to no seed", other),
        }
    }
    assert_eq!(seen, [true, true, true]);
}

#[test]
fn mutate_leaves_the_corpus_alone_and_changes_its_copy() {
    let seed: Vec<u8> = vec![0u8; 4096];
    let corpus = Corpus::new(vec![seed.clone()]);
    let mut rng = rand::thread_rng();
    let mut changed: bool = false;
    let mut offsets: Vec<usize> = Vec::new();
    for _ in 0..50 {
        let out = mutate(&corpus, &mut rng);
        for entry in byte_diff(&seed, &out) {
            changed = true;
            assert_ne!(entry.mutated, 0);
            offsets.push(entry.offset);
        }
        assert_eq!(corpus.seed(0), &seed);
    }
    assert!(changed);
    offsets.sort();
    offsets.dedup();
    assert!(offsets.len() > 1);
}

#[test]
fn substitute_applies_in_order() {
    let seed: Vec<u8> = vec![1u8, 2u8, 3u8, 4u8];
    let picks = vec![
        Substitution { offset: 1, value: 9 },
        Substitution { offset: 1, value: 7 },
        Substitution { offset: 3, value: 0 },
    ];
    assert_eq!(substitute(&seed, &picks), vec![1u8, 7u8, 3u8, 0u8]);
    assert_eq!(seed, vec![1u8, 2u8, 3u8, 4u8]);
}

#[test]
fn substitute_nothing_copies_the_seed() {
    let seed: Vec<u8> = vec![5u8, 6u8];
    assert_eq!(substitute(&seed, &Vec::new()), seed);
}

#[test]
fn substitute_same_value_changes_nothing() {
    let seed: Vec<u8> = vec![5u8, 6u8];
    let picks = vec![Substitution { offset: 0, value: 5 }];
    assert_eq!(substitute(&seed, &picks), seed);
}

#[test]
fn eight_rounds_on_one_offset_change_one_byte() {
    let seed: Vec<u8> = vec![0x4Du8, 0x5Au8, 0x90u8, 0x00u8];
    let mut picks: Vec<Substitution> = Vec::new();
    for round in 0..8u8 {
        picks.push(Substitution { offset: 2, value: round });
    }
    let out = substitute(&seed, &picks);
    assert_eq!(out, vec![0x4Du8, 0x5Au8, 7u8, 0x00u8]);
    assert_eq!(differing(&seed, &out), 1);
}

#[test]
fn eight_rounds_on_eight_offsets_change_eight_bytes() {
    let seed: Vec<u8> = vec![0u8; 16];
    let mut picks: Vec<Substitution> = Vec::new();
    for round in 0..8usize {
        picks.push(Substitution { offset: 2 * round, value: 0xFF });
    }
    let out = substitute(&seed, &picks);
    assert_eq!(differing(&seed, &out), 8);
    assert_eq!(byte_diff(&seed, &out).len(), 8);
}

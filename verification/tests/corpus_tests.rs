use mutfuzz::corpus::{Corpus, CorpusFault};

#[test]
fn corpus_keeps_seeds_in_order() {
    let corpus = Corpus::new(vec![vec![1u8, 2u8], vec![3u8], vec![]]);
    assert_eq!(corpus.len(), 3);
    assert_eq!(corpus.seed(0), &vec![1u8, 2u8]);
    assert_eq!(corpus.seed(1), &vec![3u8]);
    assert_eq!(corpus.seed(2), &Vec::<u8>::new());
}

#[test]
fn check_accepts_nonempty_seeds() {
    let corpus = Corpus::new(vec![vec![0x4Du8, 0x5Au8, 0x90u8, 0x00u8], vec![7u8]]);
    assert_eq!(corpus.check(), Ok(()));
}

#[test]
fn check_rejects_empty_corpus() {
    let corpus = Corpus::new(Vec::new());
    assert_eq!(corpus.len(), 0);
    assert_eq!(corpus.check(), Err(CorpusFault::Empty));
}

#[test]
fn check_names_first_empty_seed() {
    let corpus = Corpus::new(vec![vec![1u8], vec![], vec![2u8], vec![]]);
    assert_eq!(corpus.check(), Err(CorpusFault::EmptySeed(1)));
}

#[test]
fn check_names_empty_seed_at_front() {
    let corpus = Corpus::new(vec![vec![]]);
    assert_eq!(corpus.check(), Err(CorpusFault::EmptySeed(0)));
}

use mopso::types::{
    build_directory_string, calc_precision_recall, soundness_test, CoocInput, DefaultLogger,
    DipreInput, Env, Pattern, WPair, EMPTY_WORD,
};

#[test]
fn mopso_train_tests_test_precision_recall() {
    let reference = [1, 2, 3, 4, 5, 6, 7, 8, 9, 0];
    let retrival_erg = [2, 4, 7, 8, 10, 23, 123];

    let (precision, recall) = calc_precision_recall(&retrival_erg, &reference);
    assert_eq!(precision, (4, 7));
    assert_eq!(recall, (4, 10));
}

#[test]
fn pso_train_tests_test_precision_recall() {
    let reference = [1, 2, 3, 4, 5, 6, 7, 8, 9, 0];
    let retrival_erg = [2, 4, 7, 8, 10, 23, 123];

    let (precision, recall) = calc_precision_recall(&retrival_erg, &reference);
    assert_eq!(precision, (4, 7));
    assert_eq!(recall, (4, 10));
}

#[test]
fn precision_recall_ignores_duplicates() {
    let reference = [1, 1, 2];
    let retrieved = [2, 2, 3];
    let (precision, recall) = calc_precision_recall(&retrieved, &reference);
    assert_eq!(precision, (1, 2));
    assert_eq!(recall, (1, 2));
}

#[test]
fn precision_recall_empty_retrieval() {
    let reference = [1, 2, 3];
    let retrieved: [u32; 0] = [];
    let (precision, recall) = calc_precision_recall(&retrieved, &reference);
    assert_eq!(precision, (0, 0));
    assert_eq!(recall, (0, 3));
}

#[test]
fn directory_string_inserts_separator() {
    let r = build_directory_string(String::from("data"), "words.bin");
    assert_eq!(r, String::from("data/words.bin"));
}

#[test]
fn directory_string_keeps_existing_separator() {
    let r = build_directory_string(String::from("data/"), "words.bin");
    assert_eq!(r, String::from("data/words.bin"));
}

#[test]
fn dictionary_roundtrip() {
    let mut env = Env::new();
    let a = env.add_word("alpha");
    let b = env.add_word("beta");
    let a2 = env.add_word("alpha");
    assert_eq!(a, a2);
    assert_ne!(a, b);
    assert_eq!(env.dict.get_word(&a), "alpha");
    assert_eq!(env.dict.get_word(&b), "beta");
    assert_eq!(env.dict.get_opt_nr("alpha"), Some(a));
    assert_eq!(env.dict.get_opt_nr("gamma"), None);
    assert_eq!(env.dict.get_nr("beta"), b);
}

#[test]
fn inverted_index_collects_sentences() {
    let mut env = Env::new();
    let a = env.add_word("alpha");
    env.sentences.sentences.push(vec![a]);
    env.add_inv_idx(a, 0);
    env.add_inv_idx(a, 4);
    env.add_inv_idx(a, 0);
    let set = env.get_inverted_idx(&a);
    assert_eq!(set.len(), 2);
    assert!(set.contains(&0) && set.contains(&4));
    assert_eq!(env.get_sentence(&0), &vec![a]);
    assert!(soundness_test(&env).is_empty());
}

#[test]
fn soundness_test_reports_unindexed_words() {
    let mut env = Env::new();
    let a = env.add_word("alpha");
    let b = env.add_word("beta");
    env.add_inv_idx(a, 0);
    let lost = soundness_test(&env);
    assert_eq!(lost, vec![b]);
}

#[test]
fn wpair_and_pattern_are_printable() {
    let mut env = Env::new();
    let a = env.add_word("alpha");
    let b = env.add_word("beta");
    let pair = WPair::new_str("alpha", "beta", &env);
    assert_eq!(pair.w1, a);
    assert_eq!(pair.w2, b);
    assert_eq!(pair.fitness, 0);
    pair.println(&env);
    let empty_pair = WPair::new(EMPTY_WORD, a);
    empty_pair.println(&env);
    let cloned = pair.clone();
    assert_eq!(cloned.w1, pair.w1);

    let pattern = Pattern::new(a, vec![b], EMPTY_WORD, true);
    assert_eq!(pattern.prefix, a);
    assert_eq!(pattern.infix, vec![b]);
    assert!(pattern.order);
    pattern.println(&env);
    let pattern2 = pattern.clone();
    assert_eq!(pattern2.infix, pattern.infix);
}

#[test]
fn inputs_keep_their_words() {
    let dipre = DipreInput::new(vec![("tokyo", "japan"), ("paris", "france")]);
    assert_eq!(dipre.pairs.len(), 2);
    assert_eq!(dipre.pairs[0].0, "tokyo");
    assert_eq!(dipre.pairs[1].1, "france");

    let cooc = CoocInput::new(vec!["lily", "rose"]);
    assert_eq!(cooc.set, vec![String::from("lily"), String::from("rose")]);

    let logger = DefaultLogger::new();
    logger.log("ready");
}

#[test]
fn pattern_extraction_around_pair() {
    let sentence: [u32; 6] = [10, 1, 2, 3, 20, 7];
    let pattern = mopso::relex::extract_pattern(&WPair::new(10, 20), &sentence);
    assert_eq!(pattern.prefix, EMPTY_WORD);
    assert_eq!(pattern.infix, vec![1, 2, 3]);
    assert_eq!(pattern.suffix, 7);
    assert!(pattern.order);

    let reversed = mopso::relex::extract_pattern(&WPair::new(20, 10), &sentence);
    assert!(!reversed.order);
    assert_eq!(reversed.infix, vec![1, 2, 3]);

    // The last occurrences count.
    let twice: [u32; 5] = [10, 20, 10, 5, 20];
    let p2 = mopso::relex::extract_pattern(&WPair::new(10, 20), &twice);
    assert_eq!(p2.prefix, 20);
    assert_eq!(p2.infix, vec![5]);
    assert_eq!(p2.suffix, EMPTY_WORD);
    assert!(p2.order);
}

#[test]
fn translate_spells_out_words() {
    let mut env = Env::new();
    let a = env.add_word("alpha");
    let b = env.add_word("beta");
    let words = mopso::relex::translate(&[b, a, b], &env);
    assert_eq!(words, vec!["beta", "alpha", "beta"]);
}

use omega_tasks::config::GenerationConfig;
use omega_tasks::engine::ModelAutomaton;
use omega_tasks::engine::ScriptedSampler;
use omega_tasks::generator::{generate_dba, generate_dpa, GenError};
use omega_tasks::labeler::label_set;
use omega_tasks::params::{derive_generation_size, derive_word_lengths};
use omega_tasks::words::{dedup_words, generate_set, split_sample, ScriptedWordSource, UpWord};

fn aut(size: usize, informative: bool, view_informative: bool, favored: u8) -> ModelAutomaton {
    ModelAutomaton {
        size,
        informative,
        view_informative,
        favored,
        hoa: String::from("HOA: v1"),
    }
}

fn word(spoke: Vec<u8>, cycle: Vec<u8>) -> UpWord {
    UpWord { spoke, cycle }
}

#[test]
fn word_lengths_formula() {
    assert_eq!(derive_word_lengths(4), Some((3, 15)));
    assert_eq!(derive_word_lengths(2), Some((1, 3)));
    assert_eq!(derive_word_lengths(8), Some((5, 55)));
    assert_eq!(derive_word_lengths(5), Some((5, 25)));
}

#[test]
fn word_lengths_rejects_degenerate_targets() {
    assert_eq!(derive_word_lengths(1), None);
    assert_eq!(derive_word_lengths(0), None);
    // the rejection is deterministic
    assert_eq!(derive_word_lengths(1), None);
}

#[test]
fn generation_size_formula() {
    assert_eq!(derive_generation_size(2), 2);
    assert_eq!(derive_generation_size(4), 5);
    assert_eq!(derive_generation_size(5), 6);
    assert_eq!(derive_generation_size(6), 8);
    assert_eq!(derive_generation_size(8), 10);
}

#[test]
fn generate_dba_rejects_until_constraints_hold() {
    let mut sampler = ScriptedSampler {
        queue: vec![
            aut(3, true, true, 0),   // wrong size
            aut(4, true, false, 0),  // right size, view not informative
            aut(4, false, true, 1),  // acceptable for the Büchi-like check
        ],
        calls: 0,
    };
    let dba = generate_dba::<ModelAutomaton, ScriptedSampler>(&mut sampler, 2, 4, 950, 10)
        .expect("third candidate is acceptable");
    assert_eq!(dba.size, 4);
    assert!(dba.view_informative);
    // terminated within a bounded number of stub-sampler calls
    assert_eq!(sampler.calls, 3);
}

#[test]
fn generate_dpa_rejects_until_constraints_hold() {
    let mut sampler = ScriptedSampler {
        queue: vec![
            aut(5, true, true, 0),   // wrong size
            aut(4, false, true, 0),  // right size, not informative
            aut(4, true, false, 1),  // acceptable for the parity-like check
        ],
        calls: 0,
    };
    let dpa = generate_dpa::<ModelAutomaton, ScriptedSampler>(&mut sampler, 2, 4, 5, 950, 10)
        .expect("third candidate is acceptable");
    assert_eq!(dpa.size, 4);
    assert!(dpa.informative);
    assert_eq!(sampler.calls, 3);
}

#[test]
fn generate_reports_infeasible_parameters() {
    let mut sampler = ScriptedSampler {
        queue: vec![aut(3, true, true, 0), aut(5, true, true, 0)],
        calls: 0,
    };
    let r = generate_dba::<ModelAutomaton, ScriptedSampler>(&mut sampler, 2, 4, 950, 7);
    assert!(matches!(r, Err(GenError::InfeasibleParameters)));
    assert_eq!(sampler.calls, 7);
}

/// 1000 distinct words over two symbols: each word's cycle is the
/// ten-bit binary form of its index.
fn thousand_words() -> Vec<UpWord> {
    let mut words = Vec::new();
    for n in 0..1000u32 {
        let mut cycle = Vec::new();
        for bit in 0..10 {
            cycle.push(((n >> bit) & 1) as u8);
        }
        words.push(word(vec![], cycle));
    }
    words
}

#[test]
fn generate_set_splits_and_stays_disjoint() {
    let mut source = ScriptedWordSource { queue: thousand_words() };
    let (train, test) = generate_set(&mut source, 2, 3, 15, 100, 1000);
    assert!(train.len() <= 100);
    assert!(test.len() <= 900);
    assert_eq!(train.len(), 100);
    assert_eq!(test.len(), 900);
    for tr in train.iter() {
        for te in test.iter() {
            assert!(!(tr.spoke == te.spoke && tr.cycle == te.cycle));
        }
    }
}

#[test]
fn generate_set_degenerates_silently() {
    // only three distinct words are available, one of them repeated
    let mut source = ScriptedWordSource {
        queue: vec![
            word(vec![], vec![0]),
            word(vec![], vec![1]),
            word(vec![], vec![0]),
            word(vec![0], vec![1]),
        ],
    };
    let (train, test) = generate_set(&mut source, 2, 3, 15, 2, 5);
    assert_eq!(train.len(), 2);
    assert_eq!(test.len(), 1);
    assert_eq!(train[0].cycle, vec![0]);
    assert_eq!(train[1].cycle, vec![1]);
    assert_eq!(test[0].spoke, vec![0]);
}

#[test]
fn dedup_keeps_first_occurrence() {
    let words = vec![
        word(vec![0], vec![1]),
        word(vec![], vec![0]),
        word(vec![0], vec![1]),
        word(vec![], vec![0]),
        word(vec![1], vec![1]),
    ];
    let unique = dedup_words(words);
    assert_eq!(unique.len(), 3);
    assert_eq!(unique[0].spoke, vec![0]);
    assert_eq!(unique[0].cycle, vec![1]);
    assert_eq!(unique[1].spoke, Vec::<u8>::new());
    assert_eq!(unique[1].cycle, vec![0]);
    assert_eq!(unique[2].spoke, vec![1]);
}

#[test]
fn split_caps_at_length() {
    let words = vec![word(vec![], vec![0]), word(vec![], vec![1])];
    let (train, test) = split_sample(words, 5);
    assert_eq!(train.len(), 2);
    assert_eq!(test.len(), 0);
}

#[test]
fn labelling_is_deterministic_and_order_preserving() {
    let a = aut(4, true, true, 1);
    let sample = vec![
        word(vec![0], vec![1, 0]),
        word(vec![], vec![0, 1]),
        word(vec![1], vec![1]),
    ];
    let first = label_set(&a, &sample);
    let second = label_set(&a, &sample);
    assert_eq!(first.len(), 3);
    assert_eq!(second.len(), 3);
    for i in 0..3 {
        assert_eq!(first[i].0.spoke, sample[i].spoke);
        assert_eq!(first[i].0.cycle, sample[i].cycle);
        assert_eq!(first[i].1, second[i].1);
        assert_eq!(first[i].0.spoke, second[i].0.spoke);
        assert_eq!(first[i].0.cycle, second[i].0.cycle);
    }
    // the stub accepts exactly the words whose cycle starts with the
    // favored symbol
    assert!(first[0].1);
    assert!(!first[1].1);
    assert!(first[2].1);
}

#[test]
fn configuration_is_validated() {
    let mut cfg = GenerationConfig {
        num_symbols: 2,
        num_prios: 5,
        automata_sizes: vec![4, 8],
        automata_per_size: 2,
        train_sizes: vec![100, 1000],
        test_size: 1000,
        num_sets: 2,
        lambda_millis: 950,
        max_attempts: 10000,
    };
    assert!(cfg.is_valid());
    cfg.automata_sizes.push(1);
    assert!(!cfg.is_valid());
    cfg.automata_sizes.pop();
    cfg.lambda_millis = 1000;
    assert!(!cfg.is_valid());
}

#[test]
fn labelling_empty_cycle_is_rejecting() {
    let a = aut(4, true, true, 0);
    let sample = vec![word(vec![0], vec![])];
    let labelled = label_set(&a, &sample);
    assert!(!labelled[0].1);
}

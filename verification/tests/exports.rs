use omega_tasks::engine::ModelAutomaton;
use omega_tasks::export::{export_automaton, export_labelled_set, export_set, export_task};
use omega_tasks::names::{aut_name, set_name, task_name};
use omega_tasks::parse::parse_word_set;
use omega_tasks::words::UpWord;

fn word(spoke: Vec<u8>, cycle: Vec<u8>) -> UpWord {
    UpWord { spoke, cycle }
}

fn aut(favored: u8, hoa: &str) -> ModelAutomaton {
    ModelAutomaton {
        size: 4,
        informative: true,
        view_informative: true,
        favored,
        hoa: String::from(hoa),
    }
}

#[test]
fn automaton_names_are_canonical() {
    assert_eq!(
        aut_name(4, 1, String::from("dba")),
        "data/automata/dba__aut_size=4__01.hoa"
    );
    assert_eq!(
        aut_name(128, 12, String::from("dpa")),
        "data/automata/dpa__aut_size=128__12.hoa"
    );
}

#[test]
fn set_names_are_canonical() {
    assert_eq!(
        set_name(4, 100, 0, true),
        "data/sets/word_set__aut_size=4__sample_size=100__00_train.csv"
    );
    assert_eq!(
        set_name(8, 1000, 3, false),
        "data/sets/word_set__aut_size=8__sample_size=1000__03_test.csv"
    );
}

#[test]
fn task_names_are_canonical() {
    assert_eq!(
        task_name(4, 100, 1, 2, String::from("dpa")),
        "dpa_task__aut_size=4__sample_size=100__dpa01__sample02"
    );
    assert_eq!(
        task_name(8, 1000, 10, 0, String::from("dba")),
        "dba_task__aut_size=8__sample_size=1000__dba10__sample00"
    );
}

#[test]
fn word_set_records_are_exact() {
    let set = vec![word(vec![0, 1], vec![1]), word(vec![], vec![0, 0])];
    let bytes = export_set(&set);
    assert_eq!(bytes, b"ab,b\n,aa\n".to_vec());
}

#[test]
fn labelled_records_are_exact() {
    let set = vec![
        (word(vec![0, 1], vec![1]), true),
        (word(vec![], vec![0]), false),
    ];
    let bytes = export_labelled_set(&set);
    assert_eq!(bytes, b"ab,b,true\n,a,false\n".to_vec());
}

#[test]
fn empty_set_exports_no_bytes() {
    let bytes = export_set(&Vec::new());
    assert_eq!(bytes, Vec::<u8>::new());
}

#[test]
fn round_trip_single_letter_alphabet() {
    let set = vec![
        word(vec![], vec![0]),
        word(vec![0], vec![0, 0]),
        word(vec![0, 0], vec![0, 0, 0]),
    ];
    let bytes = export_set(&set);
    let parsed = parse_word_set(&bytes, 1).expect("exported records parse back");
    assert_eq!(parsed.len(), set.len());
    for i in 0..set.len() {
        assert_eq!(parsed[i].spoke, set[i].spoke);
        assert_eq!(parsed[i].cycle, set[i].cycle);
    }
}

#[test]
fn round_trip_two_letter_alphabet() {
    let set = vec![
        word(vec![0, 1, 1], vec![1, 0]),
        word(vec![], vec![0, 1]),
        word(vec![1], vec![1]),
    ];
    let bytes = export_set(&set);
    let parsed = parse_word_set(&bytes, 2).expect("exported records parse back");
    assert_eq!(parsed.len(), set.len());
    for i in 0..set.len() {
        assert_eq!(parsed[i].spoke, set[i].spoke);
        assert_eq!(parsed[i].cycle, set[i].cycle);
    }
}

#[test]
fn parser_rejects_malformed_records() {
    assert!(parse_word_set(&b"a".to_vec(), 1).is_none()); // no terminator
    assert!(parse_word_set(&b"a\n".to_vec(), 1).is_none()); // no comma
    assert!(parse_word_set(&b"a,\n".to_vec(), 1).is_none()); // empty cycle
    assert!(parse_word_set(&b"a,b\n".to_vec(), 1).is_none()); // symbol outside alphabet
    assert!(parse_word_set(&b"a,a\nx".to_vec(), 1).is_none()); // trailing garbage
}

#[test]
fn parser_accepts_empty_input_and_empty_spokes() {
    let parsed = parse_word_set(&Vec::new(), 1).expect("empty input is an empty sample");
    assert_eq!(parsed.len(), 0);
    let parsed = parse_word_set(&b",a\n".to_vec(), 1).expect("empty spoke is fine");
    assert_eq!(parsed.len(), 1);
    assert_eq!(parsed[0].spoke, Vec::<u8>::new());
    assert_eq!(parsed[0].cycle, vec![0]);
}

#[test]
fn automaton_export_is_the_engine_serialization() {
    let a = aut(0, "HOA: v1 States: 4");
    assert_eq!(export_automaton(&a), "HOA: v1 States: 4");
}

#[test]
fn task_export_plans_paths_and_contents() {
    let a = aut(1, "HOA: v1");
    let train = vec![(word(vec![0], vec![1]), true)];
    let test = vec![(word(vec![], vec![0]), false)];
    let name = task_name(4, 100, 0, 0, String::from("dba"));
    let plan = export_task(name, &a, &train, &test);
    assert_eq!(
        plan.dir,
        "data/tasks/dba_task__aut_size=4__sample_size=100__dba00__sample00"
    );
    assert_eq!(
        plan.aut_path,
        "data/tasks/dba_task__aut_size=4__sample_size=100__dba00__sample00/aut.hoa"
    );
    assert_eq!(
        plan.train_path,
        "data/tasks/dba_task__aut_size=4__sample_size=100__dba00__sample00/train.csv"
    );
    assert_eq!(
        plan.test_path,
        "data/tasks/dba_task__aut_size=4__sample_size=100__dba00__sample00/test.csv"
    );
    assert_eq!(plan.aut_hoa, "HOA: v1");
    assert_eq!(plan.train_csv, b"a,b,true\n".to_vec());
    assert_eq!(plan.test_csv, b",a,false\n".to_vec());
}

#[test]
fn exporting_twice_plans_identical_contents() {
    let a = aut(1, "HOA: v1");
    let train = vec![
        (word(vec![0], vec![1]), true),
        (word(vec![1], vec![0, 1]), false),
    ];
    let test = vec![(word(vec![], vec![0]), false)];
    let first = export_task(String::from("bundle"), &a, &train, &test);
    let second = export_task(String::from("bundle"), &a, &train, &test);
    assert_eq!(first.dir, second.dir);
    assert_eq!(first.aut_path, second.aut_path);
    assert_eq!(first.aut_hoa, second.aut_hoa);
    assert_eq!(first.train_path, second.train_path);
    assert_eq!(first.train_csv, second.train_csv);
    assert_eq!(first.test_path, second.test_path);
    assert_eq!(first.test_csv, second.test_csv);
}

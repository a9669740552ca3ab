use engine_mate_stats::fens::Fens;

fn supplier(list: &[&str]) -> Fens {
    Fens::new(list.iter().map(|s| s.to_string()).collect())
}

#[test]
fn get_next_cycles_to_the_start() {
    let mut fens = supplier(&["a", "b", "c"]);
    assert_eq!(fens.get_next(), Some("a"));
    assert_eq!(fens.get_next(), Some("b"));
    assert_eq!(fens.get_next(), Some("c"));
    assert_eq!(fens.get_next(), Some("a"));
    assert_eq!(fens.get_next(), Some("b"));
}

#[test]
fn get_next_on_one_position_repeats_it() {
    let mut fens = supplier(&["only"]);
    assert_eq!(fens.get_next(), Some("only"));
    assert_eq!(fens.get_next(), Some("only"));
}

#[test]
fn get_next_on_empty_list_gives_nothing() {
    let mut fens = supplier(&[]);
    assert_eq!(fens.get_next(), None);
    assert_eq!(fens.get_next(), None);
    assert_eq!(fens.len(), 0);
}

#[test]
fn get_reads_by_index_without_moving() {
    let mut fens = supplier(&["a", "b"]);
    assert_eq!(fens.get(0), Some("a"));
    assert_eq!(fens.get(1), Some("b"));
    assert_eq!(fens.get(2), None);
    assert_eq!(fens.get(usize::MAX), None);
    assert_eq!(fens.len(), 2);
    assert_eq!(fens.get_next(), Some("a"));
    assert_eq!(fens.get(0), Some("a"));
    assert_eq!(fens.get_next(), Some("b"));
}

#[test]
fn exhausting_supplier_hands_each_position_out_once() {
    let mut fens = Fens::exhausting(vec!["a".to_string(), "b".to_string()]);
    assert_eq!(fens.get_next(), Some("a"));
    assert_eq!(fens.get_next(), Some("b"));
    assert_eq!(fens.get_next(), None);
    assert_eq!(fens.get_next(), None);
    assert_eq!(fens.get(0), Some("a"));
    assert_eq!(fens.len(), 2);
}

#[test]
fn exhausting_supplier_of_nothing_has_nothing() {
    let mut fens = Fens::exhausting(Vec::new());
    assert_eq!(fens.get_next(), None);
}

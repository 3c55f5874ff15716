use csv_managed::frequency::{frequency_label, FrequencyTally};

fn tally_of(values: &[&str]) -> FrequencyTally {
    let mut tally = FrequencyTally::new();
    for value in values {
        tally.record(value);
    }
    tally
}

fn pairs(values: &[(&str, usize)]) -> Vec<(String, usize)> {
    values.iter().map(|(v, c)| (v.to_string(), *c)).collect()
}

#[test]
fn frequency_labels_mark_empty_cells_and_prefer_display() {
    assert_eq!(frequency_label("", Some("x")), "<empty>");
    assert_eq!(frequency_label("", None), "<empty>");
    assert_eq!(frequency_label("1.50", Some("1.5000")), "1.5000");
    assert_eq!(frequency_label(" raw ", None), " raw ");
}

#[test]
fn tally_ranks_by_count_then_value() {
    let tally = tally_of(&["b", "a", "c", "b", "a", "b", "d"]);
    assert_eq!(tally.total(), 7);
    assert_eq!(tally.ranked(0), pairs(&[("b", 3), ("a", 2), ("c", 1), ("d", 1)]));
}

#[test]
fn tally_keeps_only_the_top_values() {
    let tally = tally_of(&["x", "y", "y", "z", "z", "z"]);
    assert_eq!(tally.ranked(2), pairs(&[("z", 3), ("y", 2)]));
    assert_eq!(tally.ranked(3), pairs(&[("z", 3), ("y", 2), ("x", 1)]));
    assert_eq!(tally.ranked(10).len(), 3);
}

#[test]
fn tally_counts_add_up_to_total() {
    let tally = tally_of(&["good", "good", "backorder", "<empty>", "good"]);
    let ranked = tally.ranked(0);
    let sum: usize = ranked.iter().map(|(_, c)| *c).sum();
    assert_eq!(sum, tally.total());
    assert_eq!(ranked[0], ("good".to_string(), 3));
}

#[test]
fn empty_tally_lists_nothing() {
    let tally = FrequencyTally::new();
    assert_eq!(tally.total(), 0);
    assert!(tally.ranked(5).is_empty());
}

#[test]
fn tally_keeps_values_exactly() {
    let tally = tally_of(&[" a", "a", "A", "a"]);
    assert_eq!(tally.ranked(0), pairs(&[("a", 2), (" a", 1), ("A", 1)]));
}

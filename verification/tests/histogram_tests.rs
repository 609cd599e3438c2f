use histogram::Histogram;
use histogram::mode;

fn make_simple<'a>() -> Histogram<&'a str> {
    let mut h = Histogram::new();
    for s in ["a", "b", "a", "c", "a", "b"].iter() {
        h.bump(s);
    }
    h
}

#[test]
fn it_works() {
    let h = make_simple();
    for (s, c) in [("a", 3), ("b", 2), ("c", 1), ("d", 0)].iter() {
        assert_eq!(h.count(s), *c);
    }
}

#[test]
fn iterator() {
    let h = make_simple();
    let mut itered: Vec<(&str, usize)> = h.iter();
    itered.sort();
    assert_eq!(itered, vec![("a", 3), ("b", 2), ("c", 1)]);
}

#[test]
fn sorting() {
    let h = make_simple();
    let ranking = h.ranking();
    assert_eq!(ranking, vec!["a", "b", "c"]);
}

#[test]
fn test_mode() {
    let nums = vec![5, 4, 3, 4, 5, 6, 5];
    assert_eq!(5, mode(&nums));
}

#[test]
fn total_counts_all_bumps() {
    let h = make_simple();
    assert_eq!(h.total_count(), 6);
    let empty: Histogram<&str> = Histogram::new();
    assert_eq!(empty.total_count(), 0);
}

#[test]
fn mode_of_simple() {
    let h = make_simple();
    assert_eq!(h.mode(), Some("a"));
}

#[test]
fn mode_tie_returns_a_maximum() {
    let mut h: Histogram<u64> = Histogram::new();
    for k in [4u64, 9, 4, 9].iter() {
        h.bump(k);
    }
    let m = h.mode().expect("non-empty histogram has a mode");
    assert_eq!(h.count(&m), 2);
}

#[test]
fn empty_histogram_queries() {
    let h: Histogram<u64> = Histogram::new();
    assert_eq!(h.mode(), None);
    assert_eq!(h.total_count(), 0);
    assert_eq!(h.ranking(), Vec::<u64>::new());
    assert_eq!(h.iter(), Vec::<(u64, usize)>::new());
    assert_eq!(h.render(), "");
}

#[test]
fn render_ascending_with_counts() {
    let mut h: Histogram<u64> = Histogram::new();
    for k in [2u64, 1, 3, 1, 2, 1].iter() {
        h.bump(k);
    }
    assert_eq!(h.render(), "1:3; 2:2; 3:1; ");
}

#[test]
fn render_multi_digit_numbers() {
    let mut h: Histogram<u64> = Histogram::new();
    for _ in 0..12 {
        h.bump(&7);
    }
    h.bump(&100);
    assert_eq!(h.render(), "7:12; 100:1; ");
}

#[test]
fn ranking_ties_carry_all_items() {
    let mut h: Histogram<u64> = Histogram::new();
    for k in [8u64, 5, 5, 8, 3].iter() {
        h.bump(k);
    }
    let ranking = h.ranking();
    assert_eq!(ranking.len(), 3);
    assert_eq!(ranking[2], 3);
    assert!(ranking[..2].contains(&5) && ranking[..2].contains(&8));
}

#[test]
fn render_string_keys_ascending() {
    let h = make_simple();
    assert_eq!(h.render(), "a:3; b:2; c:1; ");
}

#[test]
fn render_string_keys_lexicographic() {
    let mut h: Histogram<&str> = Histogram::new();
    for s in ["b", "ab", "b", "abc"].iter() {
        h.bump(s);
    }
    assert_eq!(h.render(), "ab:1; abc:1; b:2; ");
}

#[test]
fn counts_follow_each_bump() {
    let mut h: Histogram<&str> = Histogram::new();
    assert_eq!(h.count(&"x"), 0);
    h.bump(&"x");
    assert_eq!(h.count(&"x"), 1);
    h.bump(&"x");
    assert_eq!(h.count(&"x"), 2);
    assert_eq!(h.count(&"y"), 0);
    assert_eq!(h.total_count(), 2);
}

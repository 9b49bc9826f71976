use dogen::origin::{lowest_admissible, OriginSearch, OriginStep};

#[test]
fn lowest_qualifying_candidate_is_picked() {
    let c = vec![Some(5), None, Some(3), Some(1), Some(3)];
    assert_eq!(lowest_admissible(&c, 2), Some(2));
    assert_eq!(lowest_admissible(&c, 0), Some(3));
    assert_eq!(lowest_admissible(&c, 6), None);
    assert_eq!(lowest_admissible(&vec![], 0), None);
    assert_eq!(lowest_admissible(&vec![None, None], i64::MIN), None);
}

#[test]
fn ties_keep_the_first_candidate() {
    let c = vec![Some(4), Some(2), Some(2)];
    assert_eq!(lowest_admissible(&c, 2), Some(1));
}

#[test]
fn candidate_at_minimum_qualifies() {
    assert_eq!(lowest_admissible(&vec![Some(1), Some(2)], 2), Some(1));
}

#[test]
fn no_retries_gives_up_at_once() {
    let s = OriginSearch::new(0, 0);
    assert!(matches!(s.start(), OriginStep::GiveUp));
}

#[test]
fn search_retries_until_found() {
    let mut s = OriginSearch::new(3, 10);
    assert!(matches!(s.start(), OriginStep::Sample));
    assert!(matches!(s.observe(&vec![Some(9), None]), OriginStep::Sample));
    assert!(matches!(s.observe(&vec![Some(12), Some(11), Some(30)]), OriginStep::Found(1)));
    assert_eq!(s.attempts, 2);
}

#[test]
fn search_gives_up_after_last_attempt() {
    let mut s = OriginSearch::new(2, 10);
    assert!(matches!(s.observe(&vec![Some(1)]), OriginStep::Sample));
    assert!(matches!(s.observe(&vec![None]), OriginStep::GiveUp));
    assert_eq!(s.attempts, 2);
}

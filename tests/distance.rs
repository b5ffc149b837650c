use stick::distance::lev_distance;

#[test]
fn distance_classic() {
    assert_eq!(lev_distance("kitten", "sitting"), 3);
    assert_eq!(lev_distance("sitting", "kitten"), 3);
    assert_eq!(lev_distance("serch", "search"), 1);
}

#[test]
fn distance_empty() {
    assert_eq!(lev_distance("", ""), 0);
    assert_eq!(lev_distance("", "abc"), 3);
    assert_eq!(lev_distance("abcd", ""), 4);
    assert_eq!(lev_distance("", "héé"), 3);
}

#[test]
fn distance_identical_is_zero() {
    assert_eq!(lev_distance("search", "search"), 0);
    assert!(lev_distance("search", "Search") > 0);
}

#[test]
fn distance_counts_characters() {
    assert_eq!(lev_distance("é", "e"), 1);
    assert_eq!(lev_distance("naïve", "naive"), 1);
}

#[test]
fn distance_symmetric() {
    let words = ["", "a", "list", "move", "search", "new", "info", "lits"];
    for a in words.iter() {
        for b in words.iter() {
            assert_eq!(lev_distance(a, b), lev_distance(b, a));
        }
    }
}

use rs_bff::util::{IntersperseEvery, IntersperseEveryExt};

#[test]
fn n_larger_than_seq_size() {
    let res = vec![1, 1, 1].intersperse_every(2, 5).collect_vec();

    assert_eq!(res, vec![1, 1, 1]);
}

#[test]
fn n_smaller_than_seq_size() {
    let res = vec![1, 1, 1, 1, 1].intersperse_every(2, 3).collect_vec();

    assert_eq!(res, vec![1, 1, 1, 2, 1, 1]);
}

#[test]
fn n_smaller_than_seq_size_multi() {
    let res = vec![1, 1, 1, 1, 1, 1, 1].intersperse_every(2, 3).collect_vec();

    assert_eq!(res, vec![1, 1, 1, 2, 1, 1, 1, 2, 1]);
}

#[test]
fn separator_follows_a_full_last_group() {
    let res = vec![1, 1, 1, 1, 1, 1].intersperse_every(2, 3).collect_vec();
    assert_eq!(res, vec![1, 1, 1, 2, 1, 1, 1, 2]);
}

#[test]
fn zero_means_no_separator() {
    let res = vec![7, 8, 9].intersperse_every(0, 0).collect_vec();
    assert_eq!(res, vec![7, 8, 9]);
}

#[test]
fn empty_stays_empty() {
    let res = Vec::<u8>::new().intersperse_every(0, 2).collect_vec();
    assert!(res.is_empty());
}

#[test]
fn next_hands_out_one_at_a_time() {
    let mut it = IntersperseEvery::new(vec!['a', 'b', 'c'], '-', 2);
    assert_eq!(it.next(), Some('a'));
    assert_eq!(it.next(), Some('b'));
    assert_eq!(it.next(), Some('-'));
    assert_eq!(it.next(), Some('c'));
    assert_eq!(it.next(), None);
}

#[test]
fn none_is_followed_only_by_none() {
    let mut it = IntersperseEvery::new(vec![1], 0, 1);
    assert_eq!(it.next(), Some(1));
    assert_eq!(it.next(), Some(0));
    assert_eq!(it.next(), None);
    assert_eq!(it.next(), None);
    assert_eq!(it.next(), None);
}

#[test]
fn collect_continues_from_where_it_is() {
    let mut it = vec![1, 1, 1, 1].intersperse_every(2, 2);
    assert_eq!(it.next(), Some(1));
    assert_eq!(it.collect_vec(), vec![1, 2, 1, 1, 2]);
}

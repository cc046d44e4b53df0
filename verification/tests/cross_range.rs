use star_stuff::correlation::correlation_starts;
use star_stuff::cross_range::cross_range;

#[test]
fn cross_range_test() {
    let v: Vec<_> = cross_range(3).to_vec();
    let expected = [
        (3, -3),
        (3, -2),
        (2, -2),
        (2, -1),
        (1, -1),
        (1, 0),
        (0, 0),
        (0, 1),
        (-1, 1),
        (-1, 2),
        (-2, 2),
        (-2, 3),
        (-3, 3),
    ];
    assert_eq!(&v[..], &expected[..]);
}

#[test]
fn cross_range_test_one() {
    let v: Vec<_> = cross_range(1).to_vec();
    let expected = [(1, -1), (1, 0), (0, 0), (0, 1), (-1, 1)];
    assert_eq!(&v[..], &expected[..]);
}

#[test]
fn cross_range_test_zero() {
    let v: Vec<_> = cross_range(0).to_vec();
    let expected = [(0, 0)];
    assert_eq!(&v[..], &expected[..]);
}

#[test]
fn cross_range_next_stays_exhausted() {
    let mut it = cross_range(1);
    let mut seen = Vec::new();
    while let Some(p) = it.next() {
        seen.push(p);
    }
    assert_eq!(seen.len(), 5);
    assert_eq!(it.next(), None);
    assert_eq!(it.next(), None);
}

#[test]
fn cross_range_walk_moves_one_step_at_a_time() {
    let v = cross_range(4).to_vec();
    assert_eq!(v.len(), 17);
    assert_eq!(v[0], (4, -4));
    assert_eq!(v[16], (-4, 4));
    for k in 0..v.len() - 1 {
        let (a, b) = v[k];
        let (c, d) = v[k + 1];
        assert!(a + b == 0 || a + b == 1);
        if k % 2 == 0 {
            assert_eq!((c, d), (a, b + 1));
        } else {
            assert_eq!((c, d), (a - 1, b));
        }
    }
}

#[test]
fn cross_range_partly_consumed_to_vec() {
    let mut it = cross_range(1);
    assert_eq!(it.next(), Some((1, -1)));
    assert_eq!(it.next(), Some((1, 0)));
    assert_eq!(it.to_vec(), vec![(0, 0), (0, 1), (-1, 1)]);
}

#[test]
fn correlation_starts_walk_offsets_in_order() {
    let starts = correlation_starts(3);
    assert_eq!(
        starts,
        vec![(0, 3), (1, 3), (1, 2), (2, 2), (2, 1), (3, 1), (3, 0)]
    );
    for (k, (r, s)) in starts.iter().enumerate() {
        assert_eq!(*r as isize - *s as isize, k as isize - 3);
    }
    assert_eq!(correlation_starts(0), vec![(0, 0)]);
}

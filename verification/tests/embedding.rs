use delay_coord::DelayCoordinates;
use delay_coord::ForwardDelayCoordinates;

#[test]
fn test_forward_coord() {
    let data = (0..10).collect::<Vec<usize>>();
    let coord = ForwardDelayCoordinates {
        delay: 2,
        dimension: 3,
    };
    let mut iter = coord.mapping_iter(&data);
    assert_eq!(iter.next().map(|p| p.to_vec()), Some(vec![4, 2, 0]));
    assert_eq!(iter.next().map(|p| p.to_vec()), Some(vec![5, 3, 1]));
    assert_eq!(iter.next().map(|p| p.to_vec()), Some(vec![6, 4, 2]));
    assert_eq!(iter.next().map(|p| p.to_vec()), Some(vec![7, 5, 3]));
    assert_eq!(iter.next().map(|p| p.to_vec()), Some(vec![8, 6, 4]));
    assert_eq!(iter.next().map(|p| p.to_vec()), Some(vec![9, 7, 5]));
    assert_eq!(iter.next().map(|p| p.to_vec()), None);
}

#[test]
fn test_forward_coord_multi() {
    let data = (0..10).map(|n| vec![n, n]).collect::<Vec<_>>();
    let coord = ForwardDelayCoordinates {
        delay: 5,
        dimension: 2,
    };
    let mut iter = coord.mapping_iter(&data);
    assert_eq!(iter.next().map(|p| p.to_flatten_vec()), Some(vec![5, 5, 0, 0]));
    assert_eq!(iter.next().map(|p| p.to_flatten_vec()), Some(vec![6, 6, 1, 1]));
    assert_eq!(iter.next().map(|p| p.to_flatten_vec()), Some(vec![7, 7, 2, 2]));
    assert_eq!(iter.next().map(|p| p.to_flatten_vec()), Some(vec![8, 8, 3, 3]));
    assert_eq!(iter.next().map(|p| p.to_flatten_vec()), Some(vec![9, 9, 4, 4]));
    assert_eq!(iter.next().map(|p| p.to_flatten_vec()), None);
}

#[test]
fn view_count_matches_formula() {
    // window_size = (3 - 1) * 2 + 1 = 5; a series of 10 samples gives 6 views.
    let data = (0..10).collect::<Vec<usize>>();
    let coord = ForwardDelayCoordinates {
        delay: 2,
        dimension: 3,
    };
    assert_eq!(coord.window_size(), 5);
    let mut iter = coord.mapping_iter(&data);
    let mut count = 0;
    while let Some(_) = iter.next() {
        count += 1;
    }
    assert_eq!(count, 10 - 5 + 1);
}

#[test]
fn to_vec_length_is_dimension() {
    let data = (0..20).collect::<Vec<u32>>();
    let coord = ForwardDelayCoordinates {
        delay: 3,
        dimension: 4,
    };
    let mut iter = coord.mapping_iter(&data);
    while let Some(view) = iter.next() {
        assert_eq!(view.to_vec().len(), 4);
    }
}

#[test]
fn newest_and_oldest_endpoints() {
    // The first view covers data[0..5]; logical index 0 is the newest sample
    // (the window's last element) and logical index 2 the oldest (its first).
    let data = (0..10).collect::<Vec<usize>>();
    let coord = ForwardDelayCoordinates {
        delay: 2,
        dimension: 3,
    };
    let mut iter = coord.mapping_iter(&data);
    let view = iter.next().unwrap();
    assert_eq!(view.get(0), Some(&4));
    assert_eq!(view.get(2), Some(&0));
}

#[test]
fn consecutive_views_slide_by_one() {
    // The oldest sample of each view is the window's first element, so
    // consecutive views' windows start one physical position apart.
    let data = (0..10).collect::<Vec<usize>>();
    let coord = ForwardDelayCoordinates {
        delay: 2,
        dimension: 3,
    };
    let mut iter = coord.mapping_iter(&data);
    let first = iter.next().unwrap();
    let second = iter.next().unwrap();
    assert_eq!(first.get(2), Some(&0));
    assert_eq!(second.get(2), Some(&1));
}

#[test]
fn map_coord_in_and_out_of_range() {
    let coord = ForwardDelayCoordinates {
        delay: 2,
        dimension: 3,
    };
    assert_eq!(coord.map_coord(0), Some(4));
    assert_eq!(coord.map_coord(1), Some(2));
    assert_eq!(coord.map_coord(2), Some(0));
    assert_eq!(coord.map_coord(3), None);
    assert_eq!(coord.map_coord(100), None);
    for i in 0..3 {
        let offset = coord.map_coord(i).unwrap();
        assert!(offset < coord.window_size());
    }
}

#[test]
fn flattened_length_is_dimension_times_components() {
    // Samples of 3 components each, dimension 2: flattened points of 6 values.
    let data = (0..8).map(|n| vec![n, n + 1, n + 2]).collect::<Vec<_>>();
    let coord = ForwardDelayCoordinates {
        delay: 4,
        dimension: 2,
    };
    let mut iter = coord.mapping_iter(&data);
    let mut seen = 0;
    while let Some(view) = iter.next() {
        assert_eq!(view.to_flatten_vec().len(), 2 * 3);
        seen += 1;
    }
    assert_eq!(seen, 4);
}

#[test]
fn short_sequence_yields_no_views() {
    // window_size = (3 - 1) * 2 + 1 = 5, but only 2 samples are available.
    let data = vec![0usize, 1];
    let coord = ForwardDelayCoordinates {
        delay: 2,
        dimension: 3,
    };
    let mut iter = coord.mapping_iter(&data);
    assert_eq!(iter.next().map(|p| p.to_vec()), None);
    assert_eq!(iter.next().map(|p| p.to_vec()), None);
}

#[test]
fn view_iterator_walks_logical_order() {
    let data = (0..10).collect::<Vec<usize>>();
    let coord = ForwardDelayCoordinates {
        delay: 2,
        dimension: 3,
    };
    let mut mapping = coord.mapping_iter(&data);
    let view = mapping.next().unwrap();
    let mut it = view.iter();
    assert_eq!(it.next(), Some(&4));
    assert_eq!(it.next(), Some(&2));
    assert_eq!(it.next(), Some(&0));
    assert_eq!(it.next(), None);
    assert_eq!(it.next(), None);
}

#[test]
fn direct_indexing_matches_get() {
    let data = (0..10).collect::<Vec<usize>>();
    let coord = ForwardDelayCoordinates {
        delay: 2,
        dimension: 3,
    };
    let mut mapping = coord.mapping_iter(&data);
    let view = mapping.next().unwrap();
    for i in 0..3 {
        assert_eq!(Some(view.index(i)), view.get(i));
    }
}

#[test]
fn zero_delay_collapses_to_newest() {
    // delay = 0: window_size = 1, every logical index reads offset 0, and a
    // series of length N gives N views.
    let data = (0..4).collect::<Vec<usize>>();
    let coord = ForwardDelayCoordinates {
        delay: 0,
        dimension: 3,
    };
    assert_eq!(coord.window_size(), 1);
    let mut iter = coord.mapping_iter(&data);
    assert_eq!(iter.next().map(|p| p.to_vec()), Some(vec![0, 0, 0]));
    assert_eq!(iter.next().map(|p| p.to_vec()), Some(vec![1, 1, 1]));
    assert_eq!(iter.next().map(|p| p.to_vec()), Some(vec![2, 2, 2]));
    assert_eq!(iter.next().map(|p| p.to_vec()), Some(vec![3, 3, 3]));
    assert_eq!(iter.next().map(|p| p.to_vec()), None);
}

#[test]
fn geometry_accessors_report_parameters() {
    let coord = ForwardDelayCoordinates {
        delay: 7,
        dimension: 5,
    };
    assert_eq!(coord.delay(), 7);
    assert_eq!(coord.dimension(), 5);
    assert_eq!(coord.window_size(), (5 - 1) * 7 + 1);
}

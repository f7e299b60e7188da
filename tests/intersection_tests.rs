use raytracer::intersections::{Intersection, Intersections};
use raytracer::object_id::{Arena, ObjectID};
use raytracer::time::Time;

fn t(value: f64) -> Time {
    Time::from_bits(value.to_bits())
}

fn one_object() -> ObjectID {
    let mut arena: Arena<&str> = Arena::new();
    arena.insert("sphere")
}

fn times(xs: &Intersections) -> Vec<f64> {
    let mut r = Vec::new();
    for i in 0..xs.len() {
        r.push(f64::from_bits(xs.index(i).t().bits()));
    }
    r
}

#[test]
fn hit_all_positive_t() {
    let s = one_object();
    let i1 = Intersection::new(t(1.0), s);
    let i2 = Intersection::new(t(2.0), s);

    let intersections = Intersections::new(vec![i1, i2]);
    let hit = intersections.hit();

    assert_eq!(*hit.unwrap(), Intersection::new(t(1.0), s));
}

#[test]
fn hit_some_negative_t() {
    let s = one_object();
    let i1 = Intersection::new(t(-1.0), s);
    let i2 = Intersection::new(t(1.0), s);

    let intersections = Intersections::new(vec![i1, i2]);
    let hit = intersections.hit();

    assert_eq!(*hit.unwrap(), Intersection::new(t(1.0), s));
}

#[test]
fn hit_all_negative_t() {
    let s = one_object();
    let i1 = Intersection::new(t(-2.0), s);
    let i2 = Intersection::new(t(-1.0), s);

    let intersections = Intersections::new(vec![i1, i2]);
    let hit = intersections.hit();

    if let Some(intersection) = hit {
        panic!("Unexpected hit: {:?}", intersection);
    }
}

#[test]
fn hit_is_lowest_non_negative() {
    let s = one_object();
    let i1 = Intersection::new(t(5.0), s);
    let i2 = Intersection::new(t(7.0), s);
    let i3 = Intersection::new(t(-3.0), s);
    let i4 = Intersection::new(t(2.0), s);

    let intersections = Intersections::new(vec![i1, i2, i3, i4]);
    let hit = intersections.hit();

    assert_eq!(*hit.unwrap(), Intersection::new(t(2.0), s));
}

#[test]
fn new_orders_by_parameter() {
    let s = one_object();
    let values = [3.5, -1.25, 0.0, 10.0, -7.0, 2.0, f64::INFINITY, f64::NEG_INFINITY];
    let list: Vec<Intersection> = values.iter().map(|v| Intersection::new(t(*v), s)).collect();

    let xs = Intersections::new(list);

    assert_eq!(
        times(&xs),
        vec![f64::NEG_INFINITY, -7.0, -1.25, 0.0, 2.0, 3.5, 10.0, f64::INFINITY]
    );
}

#[test]
fn new_leaves_out_nan_parameters() {
    let s = one_object();
    let xs = Intersections::new(vec![
        Intersection::new(t(f64::NAN), s),
        Intersection::new(t(1.0), s),
    ]);

    assert_eq!(xs.len(), 1);
    assert_eq!(times(&xs), vec![1.0]);
}

#[test]
fn new_of_nothing_is_empty() {
    let xs = Intersections::new(Vec::new());

    assert!(xs.is_empty());
    assert!(xs.hit().is_none());
}

#[test]
fn ties_keep_their_order() {
    let mut arena: Arena<u8> = Arena::new();
    let a = arena.insert(1);
    let b = arena.insert(2);
    let xs = Intersections::new(vec![
        Intersection::new(t(4.0), b),
        Intersection::new(t(4.0), a),
        Intersection::new(t(1.0), a),
    ]);

    assert_eq!(xs.index(0).object(), a);
    assert_eq!(xs.index(1).object(), b);
    assert_eq!(xs.index(2).object(), a);
}

#[test]
fn add_intersections_keeps_ties_from_other_objects() {
    let mut arena: Arena<u8> = Arena::new();
    let a = arena.insert(1);
    let b = arena.insert(2);
    let mut xs = Intersections::new(vec![
        Intersection::new(t(4.0), a),
        Intersection::new(t(6.0), a),
    ]);

    xs.add_intersections(Intersections::new(vec![
        Intersection::new(t(5.0), b),
        Intersection::new(t(6.0), b),
    ]));

    assert_eq!(xs.len(), 4);
    assert_eq!(times(&xs), vec![4.0, 5.0, 6.0, 6.0]);
    assert_eq!(xs.index(2).object(), a);
    assert_eq!(xs.index(3).object(), b);
}

#[test]
fn negative_zero_counts_as_a_hit() {
    let s = one_object();
    let xs = Intersections::new(vec![
        Intersection::new(t(-0.5), s),
        Intersection::new(t(-0.0), s),
    ]);

    let hit = xs.hit().unwrap();
    assert_eq!(hit.t().bits(), (-0.0f64).to_bits());
}

#[test]
fn gather_repeated_gives_same_sequence() {
    let mut arena: Arena<u8> = Arena::new();
    let a = arena.insert(1);
    let b = arena.insert(2);
    let lists = || {
        vec![
            Intersections::new(vec![Intersection::new(t(4.0), a), Intersection::new(t(6.0), a)]),
            Intersections::new(vec![Intersection::new(t(4.0), b), Intersection::new(t(-1.0), b)]),
        ]
    };

    let first = Intersections::gather(lists());
    let second = Intersections::gather(lists());

    assert_eq!(first.len(), 4);
    assert_eq!(times(&first), vec![-1.0, 4.0, 4.0, 6.0]);
    assert_eq!(first.index(1).object(), a);
    assert_eq!(first.index(2).object(), b);
    for i in 0..first.len() {
        assert_eq!(first.index(i), second.index(i));
    }
}

#[test]
fn gather_of_no_objects_is_empty() {
    let xs = Intersections::gather(Vec::new());

    assert!(xs.is_empty());
}

#[test]
fn hit_before_compares_with_limit() {
    let s = one_object();
    let xs = Intersections::new(vec![
        Intersection::new(t(-2.0), s),
        Intersection::new(t(3.0), s),
    ]);

    assert!(xs.hit_before(t(4.0)));
    assert!(!xs.hit_before(t(3.0)));
    assert!(!xs.hit_before(t(2.0)));
    assert!(!Intersections::empty().hit_before(t(100.0)));
}

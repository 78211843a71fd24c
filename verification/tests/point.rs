use pcl_rustic_core::{Color, Point};

#[test]
fn test_point_creation() {
    let point = Point::new(1, 2, 3);
    assert_eq!(point.x, 1);
    assert_eq!(point.y, 2);
    assert_eq!(point.z, Some(3));
    assert!(point.attributes.is_empty());
}

#[test]
fn test_point_default() {
    let point: Point = Point::default();
    assert_eq!(point.x, 0);
    assert_eq!(point.y, 0);
    assert_eq!(point.z, Some(0));
    assert!(point.attributes.is_empty());
}

#[test]
fn test_point_with_attributes() {
    let attrs = vec![("intensity".to_string(), 100), ("red".to_string(), 255)];

    let point = Point::with_attributes(1, 2, 3, attrs);
    assert_eq!(point.x, 1);
    assert_eq!(point.get_attribute("intensity"), Some(100));
    assert_eq!(point.get_attribute("red"), Some(255));
}

#[test]
fn test_point_set_get_attribute() {
    let mut point = Point::new(1, 2, 3);
    point.set_attribute("intensity".to_string(), 150);
    assert_eq!(point.get_attribute("intensity"), Some(150));
    assert_eq!(point.get_attribute("nonexistent"), None);
}

#[test]
fn set_attribute_replaces_in_place() {
    let mut point = Point::new_2d(4, 5);
    point.set_attribute("ring".to_string(), 1);
    point.set_attribute("temp".to_string(), 20);
    point.set_attribute("ring".to_string(), 7);
    assert_eq!(point.get_attribute("ring"), Some(7));
    assert_eq!(point.get_attribute("temp"), Some(20));
    assert_eq!(point.attributes.len(), 2);
    assert_eq!(point.attributes[0].0, "ring");
}

#[test]
fn builders_attach_attributes() {
    let p = Point::new_3d(1, 2, 3)
        .with_rgba(10, 20, 30, 40)
        .with_intensity(55)
        .with_classification(2)
        .with_ring_id(9)
        .with_time_offset(-4);
    assert_eq!(
        p.color,
        Some(Color {
            r: 10,
            g: 20,
            b: 30,
            a: Some(40)
        })
    );
    assert_eq!(p.intensity, Some(55));
    assert_eq!(p.classification, Some(2));
    assert_eq!(p.ring_id, Some(9));
    assert_eq!(p.time_offset, Some(-4));
    assert!(p.has_color());
    assert!(p.is_3d());

    let q = Point::new_2d(0, 0).with_color(1, 2, 3);
    assert_eq!(
        q.color,
        Some(Color {
            r: 1,
            g: 2,
            b: 3,
            a: None
        })
    );
    assert!(!q.is_3d());
}

#[test]
fn fields_lists_names_in_order() {
    let mut p = Point::new_2d(1, 2).with_color(3, 4, 5).with_intensity(6);
    p.set_attribute("temperature".to_string(), 21);
    let names = p.fields();
    assert_eq!(names, vec!["x", "y", "r", "g", "b", "intensity", "temperature"]);

    let q = Point::new(1, 2, 3).with_rgba(1, 1, 1, 1).with_time_offset(0);
    assert_eq!(q.fields(), vec!["x", "y", "z", "r", "g", "b", "a", "time_offset"]);
}

#[test]
fn distance_2d_is_euclidean() {
    let a = Point::new_2d(0, 0);
    let b = Point::new_2d(3, 4);
    assert_eq!(a.distance_2d(&b), 5);
    assert_eq!(b.distance_2d(&a), 5);
    // 1^2 + 1^2 = 2, so the rounded-down distance is 1
    let c = Point::new_2d(1, 1);
    assert_eq!(a.distance_2d(&c), 1);
}

#[test]
fn distance_3d_absent_without_z() {
    let flat = Point::new_2d(0, 0);
    let solid = Point::new(3, 4, 12);
    assert_eq!(flat.distance_3d(&solid), None);
    assert_eq!(solid.distance_3d(&flat), None);
    let origin = Point::new(0, 0, 0);
    assert_eq!(origin.distance_3d(&solid), Some(13));
}

#[test]
fn point_equality_is_structural() {
    let mut a = Point::new(1, 2, 3).with_intensity(4);
    let mut b = Point::new(1, 2, 3).with_intensity(4);
    a.set_attribute("k".to_string(), 9);
    b.set_attribute("k".to_string(), 9);
    assert_eq!(a, b);
    b.set_attribute("k".to_string(), 10);
    assert_ne!(a, b);
}

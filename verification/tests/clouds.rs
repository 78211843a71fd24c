use pcl_rustic_core::{
    CompactPointCloud, PclError, Point, PointCloud, SimplePointCloud, Transform,
};

fn translation(tx: i64, ty: i64, tz: i64) -> Transform {
    Transform::from([
        [1, 0, 0, tx],
        [0, 1, 0, ty],
        [0, 0, 1, tz],
        [0, 0, 0, 1],
    ])
}

#[test]
fn row_round_trip_preserves_points() {
    let points = vec![
        Point::new(1, 2, 3).with_intensity(7),
        Point::new_2d(4, 5).with_color(9, 9, 9),
        Point::new(6, 7, 8).with_ring_id(2).with_time_offset(-1),
    ];
    let cloud = SimplePointCloud::from_points(points.clone());
    assert_eq!(cloud.num_points(), 3);
    let back = cloud.points_vec();
    assert_eq!(back, &points);
}

#[test]
fn row_schema_queries_scan_points() {
    let mut cloud = SimplePointCloud::new();
    assert!(!cloud.is_3d());
    assert!(!cloud.has_color());
    assert!(!cloud.has_intensity());
    assert!(!cloud.has_classification());
    cloud.add_point(Point::new_2d(1, 2));
    assert!(!cloud.is_3d());
    cloud.add_point(Point::new(3, 4, 5).with_color(1, 2, 3).with_intensity(9));
    assert!(cloud.is_3d());
    assert!(cloud.has_color());
    assert!(cloud.has_intensity());
    assert!(cloud.has_attribute("x"));
    assert!(cloud.has_attribute("z"));
    assert!(cloud.has_attribute("r"));
    assert!(cloud.has_attribute("intensity"));
    assert!(!cloud.has_attribute("ring_id"));
    assert!(!cloud.has_attribute("classification"));
    assert_eq!(
        cloud.attribute_names(),
        vec!["x", "y", "z", "r", "g", "b", "intensity"]
    );
}

#[test]
fn row_clear_drops_derived_schema() {
    // the row layout derives its schema from the stored points, so clearing
    // empties the reported names back to the coordinates
    let mut cloud = SimplePointCloud::new();
    cloud.add_point(Point::new(1, 2, 3).with_color(4, 5, 6));
    assert!(cloud.has_color());
    cloud.clear();
    assert_eq!(cloud.num_points(), 0);
    assert!(!cloud.has_color());
    assert_eq!(cloud.attribute_names(), vec!["x", "y"]);
}

#[test]
fn row_transform_moves_each_point() {
    let points = vec![Point::new(1, 2, 3), Point::new(4, 5, 6).with_intensity(7)];
    let cloud = SimplePointCloud::from_points(points);
    let moved = cloud.transform(&translation(10, 20, 30));
    assert_eq!(moved.at(0).unwrap(), Point::new(11, 22, 33));
    assert_eq!(
        moved.at(1).unwrap(),
        Point::new(14, 25, 36).with_intensity(7)
    );

    let mut inplace = SimplePointCloud::from_points(vec![Point::new_2d(1, 1)]);
    inplace.transform_inplace(&translation(2, 3, 4));
    // a planar point stays planar: the z translation is not recorded
    assert_eq!(inplace.at(0).unwrap(), Point::new_2d(3, 4));
}

#[test]
fn out_of_range_access_reports_index_error() {
    let mut row = SimplePointCloud::new();
    row.add_point(Point::new(1, 2, 3));
    assert_eq!(
        row.at(1),
        Err(PclError::IndexError { index: 1, len: 1 })
    );
    assert_eq!(
        row.set(5, Point::new(0, 0, 0)),
        Err(PclError::IndexError { index: 5, len: 1 })
    );

    let mut col = CompactPointCloud::new();
    col.add_point(Point::new(1, 2, 3));
    assert_eq!(
        col.at(1),
        Err(PclError::IndexError { index: 1, len: 1 })
    );
    assert_eq!(
        col.set(2, Point::new(0, 0, 0)),
        Err(PclError::IndexError { index: 2, len: 1 })
    );
}

#[test]
fn set_replaces_a_point() {
    let mut row = SimplePointCloud::from_points(vec![Point::new(1, 2, 3), Point::new(4, 5, 6)]);
    row.set(1, Point::new(7, 8, 9)).unwrap();
    assert_eq!(row.at(1).unwrap(), Point::new(7, 8, 9));

    let mut col = CompactPointCloud::new();
    col.add_point(Point::new(1, 2, 3));
    col.add_point(Point::new(4, 5, 6));
    col.set(0, Point::new(7, 8, 9)).unwrap();
    assert_eq!(col.at(0).unwrap(), Point::new(7, 8, 9));
    assert_eq!(col.at(1).unwrap(), Point::new(4, 5, 6));
}

#[test]
fn compact_counts_and_columns_stay_synchronized() {
    let mut cloud = CompactPointCloud::new();
    for i in 0..10i64 {
        cloud.add_point(Point::new(i, 2 * i, 3 * i).with_intensity(i));
        assert!(cloud.is_valid());
        assert_eq!(cloud.num_points(), (i + 1) as usize);
        assert_eq!(cloud.len(), (i + 1) as usize);
    }
    assert!(!cloud.is_empty());
}

#[test]
fn compact_backfills_color_columns() {
    let mut cloud = CompactPointCloud::new();
    cloud.add_point(Point::new_2d(1, 2));
    cloud.add_point(Point::new_2d(3, 4).with_color(9, 8, 7));
    assert_eq!(cloud.num_points(), 2);
    assert!(cloud.has_color());
    // the first row was backfilled with the documented default
    assert_eq!(
        cloud.at(0).unwrap(),
        Point::new_2d(1, 2).with_color(0, 0, 0)
    );
    assert_eq!(
        cloud.at(1).unwrap(),
        Point::new_2d(3, 4).with_color(9, 8, 7)
    );
}

#[test]
fn compact_backfills_z_and_extras() {
    let mut cloud = CompactPointCloud::new();
    cloud.add_point(Point::new_2d(1, 2));
    assert!(!cloud.is_3d());
    let mut p = Point::new(3, 4, 5);
    p.set_attribute("temperature".to_string(), 21);
    cloud.add_point(p);
    assert!(cloud.is_3d());
    assert!(cloud.has_attribute("temperature"));
    // backfilled rows read as zero
    assert_eq!(cloud.at(0).unwrap().z, Some(0));
    assert_eq!(cloud.at(0).unwrap().get_attribute("temperature"), Some(0));
    assert_eq!(cloud.at(1).unwrap().get_attribute("temperature"), Some(21));
}

#[test]
fn compact_clear_preserves_schema() {
    let mut cloud = CompactPointCloud::new();
    let mut p = Point::new(1, 2, 3).with_rgba(4, 5, 6, 7).with_intensity(8);
    p.set_attribute("temperature".to_string(), 21);
    cloud.add_point(p);
    let names_before = cloud.attribute_names();
    cloud.clear();
    assert_eq!(cloud.num_points(), 0);
    assert!(cloud.is_empty());
    assert_eq!(cloud.attribute_names(), names_before);
    assert!(cloud.is_3d());
    assert!(cloud.has_color());
    assert!(cloud.has_intensity());
    assert!(cloud.has_attribute("temperature"));
}

#[test]
fn compact_attribute_names_follow_columns() {
    let mut cloud = CompactPointCloud::new();
    assert_eq!(cloud.attribute_names(), vec!["x", "y"]);
    assert!(cloud.has_attribute("x"));
    assert!(!cloud.has_attribute("z"));
    let mut p = Point::new(1, 2, 3).with_rgba(1, 1, 1, 1).with_classification(4);
    p.set_attribute("temperature".to_string(), 19);
    cloud.add_point(p);
    assert_eq!(
        cloud.attribute_names(),
        vec!["x", "y", "z", "r", "g", "b", "a", "classification", "temperature"]
    );
    assert!(cloud.has_attribute("a"));
    assert!(cloud.has_attribute("classification"));
    assert!(!cloud.has_attribute("intensity"));
}

#[test]
fn compact_transform_touches_only_coordinates() {
    let mut cloud = CompactPointCloud::new();
    let mut p = Point::new(1, 2, 3).with_color(4, 5, 6).with_intensity(7);
    p.set_attribute("temperature".to_string(), 21);
    cloud.add_point(p);
    let moved = cloud.transform(&translation(10, 20, 30));
    let q = moved.at(0).unwrap();
    assert_eq!(q.x, 11);
    assert_eq!(q.y, 22);
    assert_eq!(q.z, Some(33));
    assert_eq!(q.color, Point::new(0, 0, 0).with_color(4, 5, 6).color);
    assert_eq!(q.intensity, Some(7));
    assert_eq!(q.get_attribute("temperature"), Some(21));
    // the original is untouched
    assert_eq!(cloud.at(0).unwrap().x, 1);

    let mut inplace = CompactPointCloud::new();
    inplace.add_point(Point::new(1, 1, 1));
    inplace.transform_inplace(&translation(1, 2, 3));
    assert_eq!(inplace.at(0).unwrap(), Point::new(2, 3, 4));
}

#[test]
fn compact_capacity_grows_by_doubling() {
    let mut cloud = CompactPointCloud::new();
    assert_eq!(cloud.capacity(), 0);
    cloud.add_point(Point::new_2d(0, 0));
    assert_eq!(cloud.capacity(), 16);
    let mut reserved = CompactPointCloud::with_capacity(2);
    assert_eq!(reserved.capacity(), 2);
    reserved.add_point(Point::new_2d(0, 0));
    reserved.add_point(Point::new_2d(1, 1));
    assert_eq!(reserved.capacity(), 2);
    reserved.add_point(Point::new_2d(2, 2));
    assert_eq!(reserved.capacity(), 4);
    reserved.reserve(10);
    assert!(reserved.capacity() >= 13);
}

#[test]
fn layouts_agree_through_the_contract() {
    fn fill<C: PointCloud>(cloud: &mut C) {
        cloud.add_point(Point::new(1, 2, 3));
        cloud.add_point(Point::new(4, 5, 6).with_color(7, 8, 9));
    }
    let mut row = SimplePointCloud::new();
    let mut col = CompactPointCloud::new();
    fill(&mut row);
    fill(&mut col);
    assert_eq!(row.num_points(), col.num_points());
    assert_eq!(row.is_3d(), col.is_3d());
    assert_eq!(row.has_color(), col.has_color());
    assert_eq!(row.at(1).unwrap(), col.at(1).unwrap());
}

#[test]
fn isqrt_rounds_down() {
    assert_eq!(pcl_rustic_core::isqrt_u128(0), 0);
    assert_eq!(pcl_rustic_core::isqrt_u128(24), 4);
    assert_eq!(pcl_rustic_core::isqrt_u128(25), 5);
    assert_eq!(pcl_rustic_core::isqrt_u128(26), 5);
    assert_eq!(pcl_rustic_core::isqrt_u128(u128::MAX), u64::MAX);
}

#[test]
fn hello_from_core_greets() {
    assert_eq!(pcl_rustic_core::hello_from_core(), "Hello from pcl_rustic core!");
}

#[test]
fn compact_add_attribute_installs_a_column() {
    let mut cloud = CompactPointCloud::new();
    cloud.add_point(Point::new(1, 2, 3));
    cloud.add_point(Point::new(4, 5, 6));
    cloud.add_attribute("temperature", vec![20, 21]).unwrap();
    assert!(cloud.has_attribute("temperature"));
    assert_eq!(cloud.at(0).unwrap().get_attribute("temperature"), Some(20));
    assert_eq!(cloud.at(1).unwrap().get_attribute("temperature"), Some(21));
    // replacing an existing column keeps the schema
    cloud.add_attribute("temperature", vec![30, 31]).unwrap();
    assert_eq!(cloud.at(1).unwrap().get_attribute("temperature"), Some(31));
    assert_eq!(cloud.attribute_names(), vec!["x", "y", "z", "temperature"]);
}

#[test]
fn compact_add_attribute_rejects_wrong_length() {
    let mut cloud = CompactPointCloud::new();
    cloud.add_point(Point::new(1, 2, 3));
    assert_eq!(
        cloud.add_attribute("temperature", vec![1, 2, 3]),
        Err(PclError::SchemaMismatch {
            expected: 1,
            got: 3
        })
    );
    // nothing changed
    assert!(!cloud.has_attribute("temperature"));
    assert_eq!(cloud.num_points(), 1);
}

#[test]
fn compact_add_and_attributes() {
    let mut pc = CompactPointCloud::new();
    assert_eq!(pc.num_points(), 0);

    let p1 = Point::new_2d(1, 2);
    pc.add_point(p1);
    assert_eq!(pc.num_points(), 1);
    assert!(!pc.is_3d());
    assert!(!pc.has_color());
    assert!(!pc.has_intensity());

    // intensity in integer units: the samples carry whole numbers
    let p2 = Point::new_3d(3, 4, 5).with_rgba(10, 20, 30, 40).with_intensity(1);
    pc.add_point(p2);
    assert_eq!(pc.num_points(), 2);
    // after adding a 3D point the cloud reports is_3d
    assert!(pc.is_3d());
    assert!(pc.has_color());
    assert!(pc.has_intensity());
}

#[test]
fn compact_refuses_reserved_column_names() {
    let mut cloud = CompactPointCloud::new();
    cloud.add_point(Point::new(1, 2, 3));
    for name in ["x", "y", "z", "r", "g", "b", "a", "intensity", "classification"] {
        assert_eq!(cloud.add_attribute(name, vec![0]), Err(PclError::ReservedName));
    }
    // nothing changed, and nothing is reported twice
    assert_eq!(cloud.attribute_names(), vec!["x", "y", "z"]);
}

#[test]
fn compact_never_shadows_fixed_names_with_extras() {
    let mut cloud = CompactPointCloud::new();
    // a point may carry an extension attribute under a fixed name, but the
    // column layout materializes no column for it
    let mut p = Point::new_2d(1, 2);
    p.set_attribute("intensity".to_string(), 9);
    p.set_attribute("temperature".to_string(), 21);
    cloud.add_point(p);
    assert!(!cloud.has_intensity());
    assert!(!cloud.has_attribute("intensity"));
    assert_eq!(cloud.attribute_names(), vec!["x", "y", "temperature"]);
    assert_eq!(cloud.at(0).unwrap().get_attribute("intensity"), None);
    assert_eq!(cloud.at(0).unwrap().get_attribute("temperature"), Some(21));
}

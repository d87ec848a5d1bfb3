use world_map::{Feature, FeatureBuilder, HorizontalAlignment, Location, Terrain, VerticalAlignment};

#[test]
fn test_feature_size() {
    let feature = Feature::new(vec![
        (Location::new(0, 0), Terrain::Wall),
        (Location::new(1, 0), Terrain::Wall),
        (Location::new(1, 1), Terrain::Wall),
    ]);
    assert_eq!(feature.width(), 2);
    assert_eq!(feature.height(), 2);
}

#[test]
fn test_build_feature() {
    // Set up some feature shape:
    //
    // ....
    // .##.
    // .##.
    // .#..
    // ....
    let comps = vec![
        (Location::new(1, 1), Terrain::Wall),
        (Location::new(2, 1), Terrain::Wall),
        (Location::new(1, 2), Terrain::Wall),
        (Location::new(2, 2), Terrain::Wall),
        (Location::new(1, 3), Terrain::Wall),
    ];

    // Place top left at (2,3).
    //
    // .....
    // .....
    // .....
    // ..##.
    // ..##.
    // ..#..
    // .....
    assert_eq!(
        *FeatureBuilder::new(comps.clone())
            .vert_align(VerticalAlignment::Top)
            .horiz_align(HorizontalAlignment::Left)
            .location(Location::new(2, 3))
            .build()
            .iter(),
        vec![
            (Location::new(2, 3), Terrain::Wall),
            (Location::new(3, 3), Terrain::Wall),
            (Location::new(2, 4), Terrain::Wall),
            (Location::new(3, 4), Terrain::Wall),
            (Location::new(2, 5), Terrain::Wall),
        ]
    );

    // Place bottom right at (5,2).
    //
    // ....##.
    // ....##.
    // ....#..
    // .......
    assert_eq!(
        *FeatureBuilder::new(comps)
            .vert_align(VerticalAlignment::Bottom)
            .horiz_align(HorizontalAlignment::Right)
            .location(Location::new(5, 2))
            .build()
            .iter(),
        vec![
            (Location::new(4, 0), Terrain::Wall),
            (Location::new(5, 0), Terrain::Wall),
            (Location::new(4, 1), Terrain::Wall),
            (Location::new(5, 1), Terrain::Wall),
            (Location::new(4, 2), Terrain::Wall),
        ]
    );

    // Set up a square feature shape.
    //
    // ###
    // ###
    // ###
    let square = vec![
        (Location::new(0, 0), Terrain::Wall),
        (Location::new(1, 0), Terrain::Wall),
        (Location::new(2, 0), Terrain::Wall),
        (Location::new(0, 1), Terrain::Wall),
        (Location::new(1, 1), Terrain::Wall),
        (Location::new(2, 1), Terrain::Wall),
        (Location::new(0, 2), Terrain::Wall),
        (Location::new(1, 2), Terrain::Wall),
        (Location::new(2, 2), Terrain::Wall),
    ];

    // Place center at (4, 1).
    //
    // ...###.
    // ...###.
    // ...###.
    // .......
    assert_eq!(
        *FeatureBuilder::new(square)
            .vert_align(VerticalAlignment::Center)
            .horiz_align(HorizontalAlignment::Center)
            .location(Location::new(4, 1))
            .build()
            .iter(),
        vec![
            (Location::new(3, 0), Terrain::Wall),
            (Location::new(4, 0), Terrain::Wall),
            (Location::new(5, 0), Terrain::Wall),
            (Location::new(3, 1), Terrain::Wall),
            (Location::new(4, 1), Terrain::Wall),
            (Location::new(5, 1), Terrain::Wall),
            (Location::new(3, 2), Terrain::Wall),
            (Location::new(4, 2), Terrain::Wall),
            (Location::new(5, 2), Terrain::Wall),
        ]
    );
}

#[test]
fn test_empty_feature_size() {
    let feature = Feature::new(Vec::new());
    assert_eq!(feature.width(), 0);
    assert_eq!(feature.height(), 0);
}

#[test]
fn test_build_preserves_terrain() {
    let comps = vec![
        (Location::new(0, 0), Terrain::Wall),
        (Location::new(1, 0), Terrain::Floor),
        (Location::new(2, 0), Terrain::Debug),
    ];
    let built = FeatureBuilder::new(comps)
        .vert_align(VerticalAlignment::Top)
        .horiz_align(HorizontalAlignment::Left)
        .location(Location::new(10, 20))
        .build();
    assert_eq!(
        *built.iter(),
        vec![
            (Location::new(10, 20), Terrain::Wall),
            (Location::new(11, 20), Terrain::Floor),
            (Location::new(12, 20), Terrain::Debug),
        ]
    );
}

#[test]
fn test_manhattan_distance() {
    let a = Location::new(1, 2);
    let b = Location::new(4, 0);
    assert_eq!(a.manhattan(&b), 5);
    assert_eq!(b.manhattan(&a), 5);
    assert_eq!(a.manhattan(&a), 0);
}

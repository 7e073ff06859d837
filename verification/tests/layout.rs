use paws_games::layout::{center, Area};

#[test]
fn rectangles_are_cut_to_the_coordinate_range() {
    let a = Area::new(10, 20, 30, 40);
    assert_eq!(a, Area { x: 10, y: 20, width: 30, height: 40 });
    let a = Area::new(65530, 65000, 100, 1000);
    assert_eq!(a, Area { x: 65530, y: 65000, width: 5, height: 535 });
}

#[test]
fn centring_a_box() {
    let area = Area::new(0, 0, 80, 24);
    assert_eq!(center(area, 40, 10), Area { x: 20, y: 7, width: 40, height: 10 });
    assert_eq!(center(area, 41, 11), Area { x: 19, y: 6, width: 41, height: 11 });
    assert_eq!(center(area, 100, 30), Area { x: 0, y: 0, width: 80, height: 24 });
    let inner = Area::new(5, 3, 20, 10);
    assert_eq!(center(inner, 10, 4), Area { x: 10, y: 6, width: 10, height: 4 });
}

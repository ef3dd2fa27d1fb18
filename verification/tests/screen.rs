use kora::screen::{cursor_position, details_layout, layout, Area};

#[test]
fn layout_places_search_list_and_details() {
    let l = layout(Area { x: 0, y: 0, width: 100, height: 30 });
    assert_eq!(l.search, Area { x: 1, y: 1, width: 98, height: 3 });
    assert_eq!((l.hosts.x, l.hosts.y, l.hosts.height), (1, 4, 25));
    assert_eq!((l.details.y, l.details.height), (4, 25));
    assert_eq!(l.details.x, l.hosts.x + l.hosts.width);
    assert_eq!(l.hosts.width + l.details.width, 98);
    assert!(l.hosts.width >= 34 && l.hosts.width <= 35);
}

#[test]
fn layout_of_a_tiny_area_stays_inside_it() {
    let l = layout(Area { x: 5, y: 5, width: 1, height: 1 });
    assert_eq!(l.search.width, 0);
    assert_eq!(l.hosts.width + l.details.width, 0);
}

#[test]
fn details_rows_stack_inside_the_border() {
    let d = details_layout(Area { x: 10, y: 2, width: 40, height: 20 });
    assert_eq!(d.inner, Area { x: 11, y: 3, width: 38, height: 18 });
    assert_eq!(d.name, Area { x: 11, y: 3, width: 38, height: 3 });
    assert_eq!(d.target, Area { x: 11, y: 6, width: 38, height: 3 });
    assert_eq!(d.config, Area { x: 11, y: 9, width: 38, height: 12 });
}

#[test]
fn cursor_goes_after_the_query() {
    let search = Area { x: 1, y: 1, width: 98, height: 3 };
    assert_eq!(cursor_position(search, 0), (2, 2));
    assert_eq!(cursor_position(search, 5), (7, 2));
    assert_eq!(cursor_position(search, 65536 + 3), (5, 2));
}

use std::rc::Rc;

use rswm::client::ClientW;
use rswm::config::Config;
use rswm::client::Rect as ClientRect;
use rswm::layout::{sort_cells, FullScreen, Layout, LayoutClone, Overview, Tile, Tile13};
use rswm::rect::Rect;
use rswm::workspace::Workspace;

fn config(border: i32, inset: i32) -> Config {
    Config::new(0x40).border_width(border).overview_inset(inset)
}

fn area(r: &Rect) -> i64 {
    r.width as i64 * r.height as i64
}

#[test]
fn tile_three_clients_without_border() {
    let rects = Tile.layout_rects(&config(0, 0), 3, Rect::new(0, 0, 100, 100));
    assert_eq!(
        rects,
        vec![Rect::new(0, 0, 50, 100), Rect::new(50, 0, 50, 50), Rect::new(50, 50, 50, 50)]
    );
    assert_eq!(rects.iter().map(area).sum::<i64>(), 10000);
}

#[test]
fn tile_one_client_and_none() {
    let r = Rect::new(3, 4, 50, 60);
    assert_eq!(Tile.layout_rects(&config(3, 0), 1, r), vec![r]);
    assert_eq!(Tile.layout_rects(&config(3, 0), 0, r), vec![r]);
}

#[test]
fn tile_leaves_room_for_borders() {
    let rects = Tile.layout_rects(&config(3, 0), 2, Rect::new(0, 0, 100, 100));
    assert_eq!(rects, vec![Rect::new(0, 0, 47, 100), Rect::new(53, 0, 47, 100)]);
    let rects = Tile.layout_rects(&config(3, 0), 4, Rect::new(0, 0, 101, 101));
    assert_eq!(
        rects,
        vec![
            Rect::new(0, 0, 47, 101),
            Rect::new(53, 0, 47, 47),
            Rect::new(53, 53, 20, 47),
            Rect::new(79, 53, 20, 47),
        ]
    );
}

#[test]
fn tile_does_not_split_what_is_too_small() {
    let r = Rect::new(7, 8, 1, 1);
    assert_eq!(Tile.layout_rects(&config(3, 0), 3, r), vec![r, r, r]);
    let rects = Tile.layout_rects(&config(3, 0), 3, Rect::new(0, 0, 100, 5));
    assert_eq!(
        rects,
        vec![Rect::new(0, 0, 47, 5), Rect::new(53, 0, 47, 5), Rect::new(53, 0, 47, 5)]
    );
    for r in Tile.layout_rects(&config(3, 0), 40, Rect::new(0, 0, 1000, 1000)) {
        assert!(r.width > 0 && r.height > 0);
    }
    let narrow = Rect::new(0, 0, 2, 10);
    assert_eq!(Tile.layout_rects(&config(1, 0), 2, narrow), vec![narrow, narrow]);
    let low = Rect::new(0, 0, 10, 6);
    assert_eq!(
        Tile.layout_rects(&config(3, 0), 3, low),
        vec![Rect::new(0, 0, 2, 6), Rect::new(8, 0, 2, 6), Rect::new(8, 0, 2, 6)]
    );
    let dot = Rect::new(4, 4, 1, 1);
    assert_eq!(Tile.layout_rects(&config(0, 0), 2, dot), vec![dot, dot]);
}

#[test]
fn tile_twice_gives_the_same() {
    let c = config(2, 0);
    let r = Rect::new(0, 18, 1916, 1058);
    assert_eq!(Tile.layout_rects(&c, 7, r), Tile.layout_rects(&c, 7, r));
}

#[test]
fn fullscreen_gives_every_client_the_whole() {
    let r = Rect::new(1, 2, 30, 40);
    assert_eq!(FullScreen.layout_rects(&config(3, 0), 3, r), vec![r, r, r]);
    assert_eq!(FullScreen.layout_rects(&config(3, 0), 0, r), vec![]);
}

#[test]
fn overview_has_a_cell_for_every_client() {
    let c = config(3, 15);
    let r = Rect::new(0, 15, 1914, 1059);
    for n in 1..40usize {
        assert_eq!(Overview.layout_rects(&c, n, r).len(), n);
    }
    assert_eq!(Overview.layout_rects(&c, 0, r), vec![r]);
    assert_eq!(Overview.layout_rects(&c, 1, r), vec![r]);
}

#[test]
fn overview_cells_in_reading_order() {
    let r = Rect::new(0, 0, 100, 100);
    assert_eq!(
        Overview.layout_rects(&config(0, 0), 4, r),
        vec![
            Rect::new(0, 0, 50, 50),
            Rect::new(50, 0, 50, 50),
            Rect::new(0, 50, 50, 50),
            Rect::new(50, 50, 50, 50),
        ]
    );
    assert_eq!(
        Overview.layout_rects(&config(0, 0), 3, r),
        vec![Rect::new(0, 0, 50, 50), Rect::new(50, 0, 50, 50), Rect::new(0, 50, 50, 50)]
    );
    assert_eq!(
        Overview.layout_rects(&config(0, 15), 2, r),
        vec![Rect::new(0, 0, 35, 85), Rect::new(65, 0, 35, 85)]
    );
    let cells = Overview.layout_rects(&config(0, 5), 8, Rect::new(0, 0, 400, 400));
    for pair in cells.windows(2) {
        assert!(pair[0].y < pair[1].y || (pair[0].y == pair[1].y && pair[0].x <= pair[1].x));
    }
}

#[test]
fn cells_are_sorted_by_row_then_column() {
    let cells = vec![
        Rect::new(5, 9, 1, 1),
        Rect::new(7, 2, 1, 1),
        Rect::new(1, 9, 2, 2),
        Rect::new(7, 2, 3, 3),
        Rect::new(0, 2, 1, 1),
    ];
    assert_eq!(
        sort_cells(&cells),
        vec![
            Rect::new(0, 2, 1, 1),
            Rect::new(7, 2, 1, 1),
            Rect::new(7, 2, 3, 3),
            Rect::new(1, 9, 2, 2),
            Rect::new(5, 9, 1, 1),
        ]
    );
}

#[test]
fn tile13_master_and_stack() {
    let layout = Tile13 { layout: Box::new(Layout::FullScreen(FullScreen)) };
    let r = Rect::new(0, 0, 300, 100);
    let c = config(3, 0);
    assert_eq!(layout.layout_rects(&c, 0, r), vec![]);
    assert_eq!(layout.layout_rects(&c, 1, r), vec![r]);
    let stack = Rect::new(100, 0, 200, 100);
    assert_eq!(layout.layout_rects(&c, 3, r), vec![Rect::new(0, 0, 97, 100), stack, stack]);
    let nested = Tile13 { layout: Box::new(Layout::Tile(Tile)) };
    assert_eq!(
        nested.layout_rects(&config(0, 0), 3, r),
        vec![Rect::new(0, 0, 100, 100), Rect::new(100, 0, 100, 100), Rect::new(200, 0, 100, 100)]
    );
}

#[test]
fn layout_dispatches_and_copies() {
    let r = Rect::new(0, 0, 90, 90);
    let c = config(0, 0);
    let layout = Layout::Tile13(Tile13 { layout: Box::new(Layout::Tile(Tile)) });
    let copy = layout.clone_layout();
    assert_eq!(layout.layout_rects(&c, 4, r), copy.layout_rects(&c, 4, r));
    assert_eq!(Layout::Tile(Tile).layout_rects(&c, 2, r), Tile.layout_rects(&c, 2, r));
    assert_eq!(Layout::Overview(Overview).layout_rects(&c, 2, r), Overview.layout_rects(&c, 2, r));
    assert_eq!(Layout::FullScreen(FullScreen).layout_rects(&c, 2, r), vec![r, r]);
}

fn client(window: u64, floating: bool, sticky: bool) -> ClientW {
    let mut c = ClientW::new(1, window, 2, b'1', None);
    c.set_floating(floating);
    c.set_sticky(sticky);
    c
}

#[test]
fn layouts_skip_floating_clients() {
    let config = Rc::new(config(0, 0));
    let mut w = Workspace::new(config, 2, b'1', None, Layout::Tile(Tile), Rect::new(0, 0, 100, 100));
    let mut out = Vec::new();
    for window in [10u64, 11, 12, 13] {
        w.new_client(window, false, &mut out);
    }
    let clients = vec![
        client(10, false, false),
        client(11, true, false),
        client(12, false, true),
        client(13, false, false),
    ];
    let r = Rect::new(0, 0, 100, 100);
    assert_eq!(w.iter(), vec![12, 11, 10, 13]);
    let plan = Tile.layout(&w, &clients, r);
    assert_eq!(
        plan,
        vec![
            (12, Rect::new(0, 0, 50, 100)),
            (10, Rect::new(50, 0, 50, 50)),
            (13, Rect::new(50, 50, 50, 50)),
        ]
    );
    assert_eq!(Tile.layout(&w, &clients, r), plan);
    assert_eq!(w.get_layout(&clients, r), plan);
    assert_eq!(FullScreen.layout(&w, &clients, r), vec![(12, r), (10, r), (13, r)]);
    let overview = Overview.layout(&w, &clients, r);
    assert_eq!(overview.iter().map(|p| p.0).collect::<Vec<u64>>(), vec![11, 10, 13]);
    assert_eq!(overview[2].1, Rect::new(0, 50, 50, 50));
}

#[test]
fn layouts_copy_themselves() {
    let r: ClientRect = Rect::new(0, 0, 90, 90);
    let c = config(0, 0);
    assert!(matches!(LayoutClone::clone_layout(&Tile), Layout::Tile(_)));
    assert!(matches!(LayoutClone::clone_layout(&FullScreen), Layout::FullScreen(_)));
    assert!(matches!(LayoutClone::clone_layout(&Overview), Layout::Overview(_)));
    let nested = Tile13 { layout: Box::new(Layout::Tile(Tile)) };
    let copy = LayoutClone::clone_layout(&nested);
    assert_eq!(copy.layout_rects(&c, 3, r), nested.layout_rects(&c, 3, r));
}

#[test]
fn overview_cells_lie_within_the_rectangle_and_apart() {
    let outer = Rect::new(10, 20, 1600, 1200);
    for inset in [0, 5, 15] {
        for n in 1..=16usize {
            let cells = Overview.layout_rects(&config(0, inset), n, outer);
            assert_eq!(cells.len(), n);
            for (i, a) in cells.iter().enumerate() {
                assert!(a.width >= 0 && a.height >= 0);
                assert!(a.x >= outer.x && a.y >= outer.y);
                assert!(a.x + a.width <= outer.x + outer.width);
                assert!(a.y + a.height <= outer.y + outer.height);
                for b in cells.iter().skip(i + 1) {
                    assert!(
                        a.x + a.width <= b.x
                            || b.x + b.width <= a.x
                            || a.y + a.height <= b.y
                            || b.y + b.height <= a.y
                    );
                }
            }
        }
    }
}

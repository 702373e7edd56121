use std::collections::VecDeque;

use rswm::atoms::create_atoms;
use rswm::client::{ClientFilter, ClientW};
use rswm::config::{ClientChange, ClientPredicate, Config};
use rswm::display::Request;
use rswm::manager::{apply_rules, classify, find_in, sort_by_tag, tag_in};
use rswm::rect::Rect;
use rswm::workspace::{find_client, find_window, select_from, usable};

fn record(window: u64, tag: u8) -> ClientW {
    let mut c = ClientW::new(1, window, 2, tag, Some("Gimp".to_string()));
    c.0.set_size(1, 2, 30, 40);
    c
}

#[test]
fn first_occurrence_is_found() {
    let ring: VecDeque<u64> = vec![4, 5, 6, 5].into();
    assert_eq!(find_window(&ring, 5), Some(1));
    assert_eq!(find_window(&ring, 4), Some(0));
    assert_eq!(find_window(&ring, 7), None);
    assert_eq!(find_in(&vec![4, 5, 6, 5], 5), Some(1));
    assert_eq!(find_in(&vec![], 5), None);
    let records = vec![record(10, b'1'), record(11, b'2'), record(10, b'3')];
    assert_eq!(find_client(&records, 10), Some(0));
    assert_eq!(find_client(&records, 11), Some(1));
    assert_eq!(find_client(&records, 12), None);
    assert_eq!(tag_in(&records, 10), b'1');
    assert_eq!(tag_in(&records, 12), 0);
}

#[test]
fn windows_are_sorted_by_falling_tag() {
    let records = vec![record(10, b'1'), record(11, b'3'), record(12, b'2'), record(13, b'3')];
    assert_eq!(sort_by_tag(&vec![10, 11, 12, 13, 99], &records), vec![11, 13, 12, 10, 99]);
    assert_eq!(sort_by_tag(&vec![13, 99, 11], &records), vec![13, 11, 99]);
    assert_eq!(select_from(&vec![13, 99, 11, 13], &records, ClientFilter::All), vec![13, 11, 13]);
}

#[test]
fn usable_area_leaves_room_for_bar_and_borders() {
    let config = Config::new(0x40);
    assert_eq!(usable(&config, Rect::new(0, 0, 1920, 1080), 15), Some(Rect::new(0, 15, 1914, 1059)));
    assert_eq!(usable(&config, Rect::new(5, 0, 2, 2), 0), Some(Rect::new(5, 0, -4, -4)));
    assert_eq!(usable(&config, Rect::new(0, 0, 262150, 100), 15), Some(Rect::new(0, 15, 262144, 79)));
    assert_eq!(usable(&config, Rect::new(0, 0, 262151, 100), 15), None);
    assert_eq!(usable(&config, Rect::new(i32::MAX, 0, i32::MAX, 100), 15), None);
    assert_eq!(usable(&Config::new(0x40).border_width(-1), Rect::new(0, 0, 100, 100), 15), None);
    assert_eq!(usable(&Config::new(0x40).overview_inset(65536), Rect::new(0, 0, 100, 100), 15), None);
    assert!(Config::new(0x40).bar_height(65535).check_geometry());
    assert!(!Config::new(0x40).bar_height(65536).check_geometry());
}

#[test]
fn window_types_and_rules_mark_a_record() {
    let atoms = create_atoms(&(1..=16).collect()).unwrap();
    let screen = Rect::new(0, 0, 100, 100);
    let mut out = Vec::new();
    let mut c = record(10, b'1');
    classify(&mut c, screen, Some(atoms.net_wm_state_fullscreen), Some(atoms.net_wm_window_type_dock), &atoms, &mut out);
    assert!(c.is_fullscreen() && c.is_floating() && c.is_dock() && !c.is_above());
    assert_eq!(c.get_rect(), screen);
    assert_eq!(
        out,
        vec![
            Request::Fullscreen { window: 10, fullscreen: true },
            Request::Configure { window: 10, rect: screen },
            Request::Raise { window: 10 },
        ]
    );
    let mut c = record(11, b'1');
    out.clear();
    classify(&mut c, screen, Some(atoms.net_wm_state_above), None, &atoms, &mut out);
    classify(&mut c, screen, None, Some(3), &atoms, &mut out);
    assert!(c.is_above() && !c.is_floating() && !c.is_dock() && out.is_empty());
    let rules = vec![
        (ClientPredicate::ClassIs("Gimp".to_string()), vec![ClientChange::Floating(true)]),
        (ClientPredicate::ClassIs("Other".to_string()), vec![ClientChange::Sticky(true)]),
        (ClientPredicate::IsDialog, vec![ClientChange::Floating(false), ClientChange::Sticky(true)]),
    ];
    apply_rules(&mut c, &rules, None, 13);
    assert!(c.is_floating() && !c.is_sticky() && !c.0.was_floating);
    apply_rules(&mut c, &rules, Some(13), 13);
    assert!(!c.is_floating() && c.is_sticky() && c.0.was_floating);
}

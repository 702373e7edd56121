use rswm::atoms::AtomTable;
use rswm::client::ClientW;
use rswm::config::{
    ClientChange, ClientPredicate, Config, Program, WmAction, KEY_E, KEY_J, KEY_K, KEY_Q,
    KEY_RETURN, TAG_OVERVIEW,
};
use rswm::display::{KeyTable, Protocol, Request, WindowState};
use rswm::events::{Event, XWindowManager};
use rswm::layout::{FullScreen, Layout, Overview};
use rswm::manager::{BackStack, WindowManager};
use rswm::rect::Rect;
use rswm::setup::{lookup_layout, Screen};
use rswm::state::{Colors, ConfigureRequest, Drag, DragKind, NewWindow};

const MOD: u32 = 0x40;
const ANCHOR: u64 = 900;
const ROOT: u64 = 1;

fn atoms() -> AtomTable {
    AtomTable {
        wm_protocols: 101,
        wm_delete: 102,
        wm_state: 103,
        wm_take_focus: 104,
        net_active_window: 105,
        net_supported: 106,
        net_wm_name: 107,
        net_wm_state: 108,
        net_wm_state_above: 109,
        net_wm_state_fullscreen: 110,
        net_wm_state_modal: 111,
        net_wm_state_sticky: 112,
        net_wm_window_type: 113,
        net_wm_window_type_dialog: 114,
        net_wm_window_type_dock: 115,
        net_client_list: 116,
    }
}

fn screen() -> Screen {
    Screen {
        root: ROOT,
        anchor_window: ANCHOR,
        width: 206,
        height: 121,
        rects: vec![Rect::new(0, 0, 206, 121)],
        atoms: atoms(),
        colors: Colors { normal_border_color: 5, focused_border_color: 6 },
    }
}

fn manager_with(config: Config) -> WindowManager {
    let mut out = Vec::new();
    WindowManager::new(config, screen(), &mut out)
}

fn manager() -> WindowManager {
    manager_with(Config::new(MOD))
}

fn window(window: u64) -> NewWindow {
    NewWindow {
        window,
        rect: Rect::new(5, 6, 50, 60),
        net_name: Some(format!("window {}", window)),
        name: None,
        class: Some("XTerm".to_string()),
        state: None,
        window_type: None,
    }
}

fn ring(wm: &WindowManager, tag: u8) -> (Vec<u64>, Option<u64>, Vec<u64>) {
    let w = &wm.workspaces[wm.index_of_tag(tag).unwrap()];
    (
        w.clients_prev.iter().cloned().collect(),
        w.client_current,
        w.clients_next.iter().cloned().collect(),
    )
}

fn record(wm: &WindowManager, window: u64) -> &ClientW {
    wm.clients.iter().find(|c| c.window() == window).unwrap()
}

fn record_mut(wm: &mut WindowManager, window: u64) -> &mut ClientW {
    wm.clients.iter_mut().find(|c| c.window() == window).unwrap()
}

const AREA: Rect = Rect { x: 0, y: 15, width: 200, height: 100 };

#[test]
fn new_manager_has_a_workspace_for_every_tag() {
    let mut out = Vec::new();
    let wm = WindowManager::new(Config::new(MOD), screen(), &mut out);
    assert_eq!(wm.workspaces.len(), 11);
    let tags: Vec<u8> = wm.workspaces.iter().map(|w| w.tag).collect();
    assert_eq!(tags, b"1234567890\0".to_vec());
    assert_eq!(wm.current_tag, b'1');
    assert_eq!((wm.root, wm.anchor_window), (ROOT, ANCHOR));
    assert_eq!((wm.screen_width, wm.screen_height), (206, 121));
    assert!(wm.clients.is_empty() && wm.special_windows.is_empty());
    assert!(wm.back_stack.stack.is_empty());
    for w in &wm.workspaces {
        assert_eq!(w.rect, Rect::new(0, 0, 206, 121));
        assert_eq!(w.anchor_window, ANCHOR);
        assert_eq!(w.client_current, None);
        assert!(matches!(w.layout, Layout::Tile(_)));
    }
    assert_eq!(out.len(), 3 + 2 * (16 + 20));
    assert_eq!(out[..3], [Request::Announce, Request::ClearClientList, Request::UngrabKeys]);
    assert_eq!(out[3], Request::GrabKey { modifiers: MOD, keysym: KEY_Q });
    assert_eq!(out[4], Request::GrabKey { modifiers: MOD | 2, keysym: KEY_Q });
    assert_eq!(wm.current_focused(), None);
    assert_eq!(wm.current_workspace().tag, b'1');
    assert!(wm.all_clients().is_empty() && wm.current_clients().is_empty());
}

#[test]
fn new_manager_spreads_tags_over_monitors() {
    let config = Config::new(MOD)
        .tag_layout(vec![(b'2', Layout::FullScreen(FullScreen)), (TAG_OVERVIEW, Layout::FullScreen(FullScreen))])
        .tag_description(vec![(b'2', "code".to_string())]);
    assert!(matches!(lookup_layout(&config, b'2'), Layout::FullScreen(_)));
    assert!(matches!(lookup_layout(&config, b'3'), Layout::Tile(_)));
    let mut s = screen();
    s.rects = vec![Rect::new(0, 0, 100, 100), Rect::new(100, 0, 50, 50)];
    let mut out = Vec::new();
    let wm = WindowManager::new(config, s, &mut out);
    assert_eq!(wm.workspaces[0].rect, Rect::new(0, 0, 100, 100));
    assert_eq!(wm.workspaces[1].rect, Rect::new(100, 0, 50, 50));
    assert_eq!(wm.workspaces[5].rect, Rect::new(100, 0, 50, 50));
    assert_eq!(wm.workspaces[10].rect, Rect::new(0, 0, 100, 100));
    assert!(matches!(wm.workspaces[1].layout, Layout::FullScreen(_)));
    assert!(matches!(wm.workspaces[10].layout, Layout::FullScreen(_)));
    assert_eq!(wm.workspaces[1].get_description(), Some(&"code".to_string()));
    assert_eq!(wm.workspaces[0].get_description(), None);
}

#[test]
fn a_new_window_becomes_the_focused_client() {
    let mut wm = manager();
    let mut out = Vec::new();
    wm.manage_window(window(10), &mut out);
    assert_eq!(ring(&wm, b'1'), (vec![], Some(10), vec![]));
    assert_eq!(
        out,
        vec![
            Request::AppendClientList { window: 10 },
            Request::Border { window: 10, width: 3 },
            Request::Notify { window: 10, rect: Rect::new(5, 6, 50, 60), border: 0 },
            Request::Listen { window: 10 },
            Request::GrabButtons { window: 10, focused: false },
            Request::State { window: 10, state: WindowState::Normal },
            Request::MapWindow { window: 10 },
            Request::GrabButtons { window: 10, focused: true },
            Request::Configure { window: 10, rect: AREA },
            Request::Focus { window: 10, focused: true },
            Request::Stack { window: 10, sibling: ANCHOR, above: true },
        ]
    );
    let c = record(&wm, 10);
    assert_eq!((c.get_title().as_str(), c.get_class().as_str()), ("window 10", "XTerm"));
    assert_eq!((c.tag(), c.get_rect(), c.0.old_rect), (b'1', AREA, Rect::new(5, 6, 50, 60)));
    assert_eq!((c.0.normal_border_color, c.0.focused_border_color), (5, 6));
    out.clear();
    wm.manage_window(window(11), &mut out);
    assert_eq!(ring(&wm, b'1'), (vec![], Some(11), vec![10]));
    assert_eq!(record(&wm, 10).get_rect(), Rect::new(0, 15, 97, 100));
    assert_eq!(record(&wm, 11).get_rect(), Rect::new(103, 15, 97, 100));
    assert_eq!(wm.all_clients(), vec![10, 11]);
    assert_eq!(wm.get_client_by_window(10), Some(10));
    assert_eq!(wm.get_client_by_window(12), None);
}

#[test]
fn rules_and_window_types_mark_a_new_client() {
    let config = Config::new(MOD).rules(vec![
        (ClientPredicate::ClassIs("Gimp".to_string()), vec![ClientChange::Floating(true)]),
        (ClientPredicate::IsDialog, vec![ClientChange::Floating(true)]),
        (
            ClientPredicate::ClassIs("Tilda".to_string()),
            vec![ClientChange::Floating(true), ClientChange::Sticky(true)],
        ),
    ]);
    let mut wm = manager_with(config);
    let mut out = Vec::new();
    let mut gimp = window(10);
    gimp.class = Some("Gimp".to_string());
    wm.manage_window(gimp, &mut out);
    assert!(record(&wm, 10).is_floating() && !record(&wm, 10).is_sticky());
    let mut dialog = window(11);
    dialog.window_type = Some(114);
    wm.manage_window(dialog, &mut out);
    assert!(record(&wm, 11).is_floating());
    let mut tilda = window(12);
    tilda.class = Some("Tilda".to_string());
    tilda.net_name = None;
    wm.manage_window(tilda, &mut out);
    assert!(record(&wm, 12).is_floating() && record(&wm, 12).is_sticky());
    assert!(!record(&wm, 12).0.was_floating);
    assert_eq!(record(&wm, 12).get_title(), "Unknown");
    wm.manage_window(window(13), &mut out);
    assert!(!record(&wm, 13).is_floating());
    assert_eq!(ring(&wm, b'1'), (vec![], Some(13), vec![12, 11, 10]));
    let mut modal = window(14);
    modal.state = Some(111);
    wm.manage_window(modal, &mut out);
    assert!(record(&wm, 14).is_floating());
    assert_eq!(ring(&wm, b'1'), (vec![], Some(14), vec![13, 12, 11, 10]));
    let mut above = window(15);
    above.state = Some(109);
    wm.manage_window(above, &mut out);
    assert!(record(&wm, 15).is_above());
    out.clear();
    let mut full = window(16);
    full.state = Some(110);
    wm.manage_window(full, &mut out);
    assert!(record(&wm, 16).is_fullscreen() && record(&wm, 16).is_floating());
    assert_eq!(record(&wm, 16).get_rect(), Rect::new(0, 0, 206, 121));
    assert_eq!(out[1], Request::Fullscreen { window: 16, fullscreen: true });
    assert_eq!(*out.last().unwrap(), Request::Raise { window: 16 });
}

#[test]
fn docks_are_kept_apart() {
    let mut wm = manager();
    let mut out = Vec::new();
    let mut dock = window(10);
    dock.window_type = Some(115);
    wm.manage_window(dock, &mut out);
    assert_eq!(wm.special_windows.len(), 1);
    assert!(wm.special_windows[0].is_dock());
    assert!(wm.clients.is_empty());
    assert_eq!(ring(&wm, b'1'), (vec![], None, vec![]));
    assert_eq!(
        out,
        vec![
            Request::AppendClientList { window: 10 },
            Request::Listen { window: 10 },
            Request::GrabButtons { window: 10, focused: false },
            Request::State { window: 10, state: WindowState::Normal },
            Request::MapWindow { window: 10 },
        ]
    );
    assert_eq!(wm.get_client_by_window(10), None);
}

#[test]
fn select_tag_shows_another_workspace() {
    let mut wm = manager();
    let mut out = Vec::new();
    wm.manage_window(window(10), &mut out);
    out.clear();
    wm.select_tag(b'1', &mut out);
    assert!(out.is_empty());
    wm.select_tag(b'x', &mut out);
    assert!(out.is_empty());
    assert_eq!(wm.current_tag, b'1');
    wm.select_tag(b'2', &mut out);
    assert_eq!(wm.current_tag, b'2');
    assert_eq!(
        out,
        vec![Request::FocusRoot, Request::Move { window: 10, x: -2000, y: 15 }, Request::Log]
    );
    assert_eq!(wm.back_stack.stack, vec![10]);
    assert_eq!(ring(&wm, b'1'), (vec![], Some(10), vec![]));
    wm.manage_window(window(20), &mut out);
    assert_eq!(record(&wm, 20).tag(), b'2');
    out.clear();
    wm.select_tag(b'1', &mut out);
    assert_eq!(
        out,
        vec![
            Request::FocusRoot,
            Request::Move { window: 20, x: -2000, y: 15 },
            Request::Configure { window: 10, rect: AREA },
            Request::Focus { window: 10, focused: true },
            Request::Stack { window: 10, sibling: ANCHOR, above: true },
            Request::GrabButtons { window: 10, focused: true },
            Request::Focus { window: 10, focused: true },
            Request::Stack { window: 10, sibling: ANCHOR, above: true },
            Request::Log,
            Request::Log,
        ]
    );
    assert_eq!(wm.back_stack.stack, vec![10, 20]);
}

#[test]
fn sticky_client_follows_the_tag() {
    let mut wm = manager();
    let mut out = Vec::new();
    wm.manage_window(window(10), &mut out);
    wm.manage_window(window(11), &mut out);
    record_mut(&mut wm, 11).set_sticky(true);
    wm.select_tag(b'2', &mut out);
    assert_eq!(wm.current_tag, b'2');
    assert_eq!(ring(&wm, b'1'), (vec![], Some(10), vec![]));
    assert_eq!(ring(&wm, b'2'), (vec![], Some(11), vec![]));
    assert_eq!(record(&wm, 11).tag(), b'2');
    assert_eq!(record(&wm, 10).tag(), b'1');
    assert!(record(&wm, 11).is_sticky());
    wm.select_tag(b'1', &mut out);
    assert_eq!(wm.current_tag, b'1');
    assert_eq!(ring(&wm, b'2'), (vec![], None, vec![]));
    assert_eq!(ring(&wm, b'1'), (vec![], Some(11), vec![10]));
    assert_eq!(record(&wm, 11).tag(), b'1');
    assert_eq!(wm.current_clients(), vec![10, 11]);
}

#[test]
fn add_tag_takes_the_focused_client_along() {
    let mut wm = manager();
    let mut out = Vec::new();
    wm.manage_window(window(10), &mut out);
    wm.manage_window(window(11), &mut out);
    wm.add_tag(b'3', &mut out);
    assert_eq!(wm.current_tag, b'3');
    assert_eq!(ring(&wm, b'1'), (vec![], Some(10), vec![]));
    assert_eq!(ring(&wm, b'3'), (vec![], Some(11), vec![]));
    assert_eq!(record(&wm, 11).tag(), b'3');
    wm.add_tag(TAG_OVERVIEW, &mut out);
    wm.add_tag(b'x', &mut out);
    assert_eq!(wm.current_tag, b'3');
    assert_eq!(ring(&wm, b'3'), (vec![], Some(11), vec![]));
}

#[test]
fn toggle_back_returns_to_the_client_before() {
    let mut wm = manager();
    let mut out = Vec::new();
    wm.manage_window(window(10), &mut out);
    wm.select_tag(b'2', &mut out);
    wm.manage_window(window(20), &mut out);
    assert_eq!(wm.back_stack.stack, vec![10]);
    wm.toggle_back(&mut out);
    assert_eq!(wm.current_tag, b'1');
    assert_eq!(wm.current_focused(), Some(10));
    assert_eq!(wm.back_stack.stack, vec![20]);
    wm.toggle_back(&mut out);
    assert_eq!(wm.current_tag, b'2');
    assert_eq!(wm.current_focused(), Some(20));
    assert_eq!(wm.back_stack.stack, vec![10]);
}

#[test]
fn back_stack_holds_a_client_once() {
    let mut b = BackStack::new();
    assert_eq!(b.peek(), None);
    assert_eq!(b.pop(), None);
    b.push(1);
    b.push(2);
    b.push(3);
    b.push(1);
    assert_eq!(b.stack, vec![2, 3, 1]);
    assert_eq!(b.peek(), Some(1));
    b.remove(3);
    b.remove(9);
    assert_eq!(b.stack, vec![2, 1]);
    assert_eq!(b.pop(), Some(1));
    assert_eq!(b.stack, vec![2]);
}

#[test]
fn overview_shows_the_clients_of_all_tags() {
    let mut wm = manager_with(
        Config::new(MOD).tag_layout(vec![(TAG_OVERVIEW, Layout::Overview(Overview))]),
    );
    let mut out = Vec::new();
    wm.manage_window(window(10), &mut out);
    wm.select_tag(b'2', &mut out);
    wm.manage_window(window(20), &mut out);
    wm.manage_window(window(21), &mut out);
    record_mut(&mut wm, 21).set_sticky(true);
    let before = record(&wm, 20).get_rect();
    out.clear();
    wm.select_tag(TAG_OVERVIEW, &mut out);
    assert_eq!(wm.current_tag, TAG_OVERVIEW);
    assert_eq!(ring(&wm, TAG_OVERVIEW), (vec![], Some(10), vec![20]));
    assert_eq!(ring(&wm, b'2'), (vec![], Some(21), vec![20]));
    assert_eq!(record(&wm, 20).get_rect(), before);
    assert!(out.contains(&Request::Configure { window: 20, rect: Rect::new(0, 15, 85, 85) }));
    assert!(out.contains(&Request::Configure { window: 10, rect: Rect::new(115, 15, 85, 85) }));
    assert!(!out.iter().any(|r| matches!(r, Request::Move { .. })));
    assert_eq!(wm.all_clients(), vec![10, 20, 21]);
    out.clear();
    wm.perform(&WmAction::Promote, KeyTable::Keys, 15, &mut out);
    assert_eq!(wm.current_tag, b'1');
    assert_eq!(wm.current_focused(), Some(10));
}

#[test]
fn toggles_change_marks_and_arrange() {
    let mut wm = manager();
    let mut out = Vec::new();
    wm.manage_window(window(10), &mut out);
    wm.manage_window(window(11), &mut out);
    out.clear();
    wm.toggle_maximize(&mut out);
    assert!(record(&wm, 11).is_maximized());
    assert_eq!(record(&wm, 11).get_rect(), AREA);
    wm.toggle_maximize(&mut out);
    assert!(!record(&wm, 11).is_maximized());
    assert_eq!(record(&wm, 11).get_rect(), Rect::new(103, 15, 97, 100));
    out.clear();
    wm.toggle_floating(&mut out);
    assert!(record(&wm, 11).is_floating());
    assert_eq!(record(&wm, 10).get_rect(), AREA);
    assert_eq!(
        out,
        vec![
            Request::Configure { window: 10, rect: AREA },
            Request::Configure { window: 11, rect: Rect::new(103, 15, 97, 100) },
            Request::Raise { window: 11 },
            Request::Focus { window: 11, focused: true },
            Request::Raise { window: 11 },
        ]
    );
}

#[test]
fn floating_client_moves_and_grows_within_the_screen() {
    let mut wm = manager();
    let mut out = Vec::new();
    wm.manage_window(window(10), &mut out);
    out.clear();
    wm.shift_window(15, 0, &mut out);
    wm.expand_width(10, &mut out);
    assert!(out.is_empty());
    wm.toggle_floating(&mut out);
    record_mut(&mut wm, 10).0.set_size(5, 6, 50, 60);
    out.clear();
    wm.shift_window(15, -15, &mut out);
    assert_eq!(record(&wm, 10).get_rect(), Rect::new(20, 0, 50, 60));
    assert_eq!(out, vec![Request::Move { window: 10, x: 20, y: 0 }, Request::Sync]);
    wm.shift_window(1000, 1000, &mut out);
    assert_eq!(record(&wm, 10).get_rect(), Rect::new(156, 61, 50, 60));
    wm.shift_window(i32::MIN, i32::MAX, &mut out);
    assert_eq!(record(&wm, 10).get_rect(), Rect::new(0, 61, 50, 60));
    out.clear();
    wm.expand_width(10, &mut out);
    assert_eq!(record(&wm, 10).get_rect(), Rect::new(0, 61, 60, 60));
    assert_eq!(out, vec![Request::Configure { window: 10, rect: Rect::new(0, 61, 60, 60) }]);
    wm.expand_width(i32::MAX, &mut out);
    assert_eq!(record(&wm, 10).get_rect().width, 206);
    wm.expand_width(-200, &mut out);
    assert_eq!(record(&wm, 10).get_rect().width, 206);
    wm.expand_width(-196, &mut out);
    assert_eq!(record(&wm, 10).get_rect().width, 10);
    wm.expand_height(-10, &mut out);
    assert_eq!(record(&wm, 10).get_rect().height, 50);
    wm.expand_height(1000, &mut out);
    assert_eq!(record(&wm, 10).get_rect().height, 121);
    wm.expand_height(-112, &mut out);
    assert_eq!(record(&wm, 10).get_rect().height, 121);
}

#[test]
fn keys_lead_to_actions() {
    let extra = vec![
        (MOD, 0x72, WmAction::Spawn(Program { command: "dmenu_run".to_string(), args: vec![] })),
        (MOD, 0x77, WmAction::AskWindow),
        (MOD, 0x79, WmAction::SetFocusIndex(Some(0))),
        (MOD, 0x70, WmAction::SetFocusIndex(None)),
        (MOD, 0xff09, WmAction::ToggleBack),
    ];
    let mut wm = manager_with(Config::new(MOD).addtional_keys(extra));
    let mut out = Vec::new();
    wm.manage_window(window(10), &mut out);
    wm.manage_window(window(11), &mut out);
    wm.manage_window(window(12), &mut out);
    assert_eq!(ring(&wm, b'1'), (vec![], Some(12), vec![11, 10]));
    wm.on_key_press(KEY_J, MOD, &mut out);
    assert_eq!(ring(&wm, b'1'), (vec![12], Some(11), vec![10]));
    wm.on_key_press(KEY_J, MOD | 2, &mut out);
    assert_eq!(ring(&wm, b'1'), (vec![12, 11], Some(10), vec![]));
    wm.on_key_press(KEY_J, MOD, &mut out);
    assert_eq!(ring(&wm, b'1'), (vec![], Some(12), vec![11, 10]));
    wm.on_key_press(KEY_K, MOD, &mut out);
    assert_eq!(ring(&wm, b'1'), (vec![12, 11], Some(10), vec![]));
    wm.on_key_press(KEY_J, MOD | 1, &mut out);
    wm.on_key_press(KEY_J, 0, &mut out);
    assert_eq!(ring(&wm, b'1'), (vec![12, 11], Some(10), vec![]));
    wm.on_key_press(KEY_RETURN, MOD, &mut out);
    assert_eq!(ring(&wm, b'1'), (vec![], Some(10), vec![12, 11]));
    wm.on_key_press(KEY_E, MOD, &mut out);
    assert!(record(&wm, 10).is_floating());
    wm.on_key_press(0x70, MOD, &mut out);
    assert_eq!(wm.current_focused(), Some(10));
    wm.on_key_press(0x79, MOD, &mut out);
    assert_eq!(wm.current_focused(), Some(12));
    wm.on_key_press(b'2' as u32, MOD, &mut out);
    assert_eq!(wm.current_tag, b'2');
    wm.on_key_press(0xff09, MOD, &mut out);
    assert_eq!(wm.current_tag, b'1');
    wm.on_key_press(b'4' as u32, MOD | 1, &mut out);
    assert_eq!(wm.current_tag, b'4');
    assert_eq!(ring(&wm, b'4'), (vec![], Some(12), vec![]));
    out.clear();
    wm.on_key_press(0x72, MOD, &mut out);
    wm.on_key_press(0x77, MOD, &mut out);
    wm.on_key_press(KEY_Q, MOD, &mut out);
    assert_eq!(
        out,
        vec![
            Request::Run { table: KeyTable::AddKeys, index: 0 },
            Request::Run { table: KeyTable::AddKeys, index: 1 },
            Request::Exit,
        ]
    );
}

#[test]
fn kill_client_asks_and_then_forces() {
    let mut wm = manager();
    let mut out = Vec::new();
    wm.manage_window(window(10), &mut out);
    out.clear();
    wm.kill_client(&mut out);
    assert_eq!(out[0], Request::Send { window: 10, protocol: Protocol::Delete });
    out.clear();
    wm.on_protocol_refused(10, Protocol::Delete, &mut out);
    wm.on_protocol_refused(10, Protocol::TakeFocus, &mut out);
    assert_eq!(out, vec![Request::Kill { window: 10 }]);
}

#[test]
fn destroyed_window_leaves_the_manager() {
    let mut wm = manager();
    let mut out = Vec::new();
    wm.manage_window(window(10), &mut out);
    wm.manage_window(window(11), &mut out);
    wm.select_tag(b'2', &mut out);
    assert_eq!(wm.back_stack.stack, vec![11]);
    out.clear();
    assert_eq!(wm.handle_event(Event::DestroyNotify { window: 11 }, &mut out), None);
    assert_eq!(ring(&wm, b'1'), (vec![], Some(10), vec![]));
    assert!(wm.back_stack.stack.is_empty());
    assert_eq!(wm.clients.len(), 1);
    assert_eq!(
        out[..5],
        [
            Request::GrabButtons { window: 10, focused: true },
            Request::Focus { window: 11, focused: false },
            Request::GrabButtons { window: 11, focused: false },
            Request::ClearClientList,
            Request::AppendClientList { window: 10 },
        ]
    );
    assert!(!out.contains(&Request::State { window: 11, state: WindowState::Withdrawn }));
    out.clear();
    wm.handle_event(Event::DestroyNotify { window: 77 }, &mut out);
    assert!(out.is_empty());
    wm.handle_event(Event::UnmapNotify { window: 10, send_event: true }, &mut out);
    assert_eq!(
        out,
        vec![Request::State { window: 10, state: WindowState::Withdrawn }, Request::Log]
    );
    assert_eq!(wm.clients.len(), 1);
    out.clear();
    wm.handle_event(Event::UnmapNotify { window: 10, send_event: false }, &mut out);
    assert_eq!(out[0], Request::State { window: 10, state: WindowState::Withdrawn });
    assert!(wm.clients.is_empty());
    assert_eq!(ring(&wm, b'1'), (vec![], None, vec![]));
    out.clear();
    wm.handle_event(Event::UnmapNotify { window: 10, send_event: false }, &mut out);
    assert_eq!(out, vec![Request::Log]);
}

#[test]
fn map_request_manages_a_window_once() {
    let mut wm = manager();
    let mut out = Vec::new();
    wm.handle_event(Event::MapRequest { info: Some(window(10)) }, &mut out);
    assert_eq!(wm.clients.len(), 1);
    out.clear();
    wm.handle_event(Event::MapRequest { info: Some(window(10)) }, &mut out);
    wm.handle_event(Event::MapRequest { info: None }, &mut out);
    wm.handle_event(Event::EnterNotify, &mut out);
    wm.handle_event(Event::Expose, &mut out);
    wm.handle_event(Event::MotionNotify, &mut out);
    assert!(out.is_empty());
    assert_eq!(wm.clients.len(), 1);
}

#[test]
fn client_message_switches_fullscreen() {
    let mut wm = manager();
    let mut out = Vec::new();
    wm.manage_window(window(10), &mut out);
    let before = record(&wm, 10).get_rect();
    let message = |l0: i64, l1: i64, l2: i64| Event::ClientMessage { window: 10, message_type: 108, l0, l1, l2 };
    wm.handle_event(message(1, 110, 0), &mut out);
    assert!(record(&wm, 10).is_fullscreen());
    assert_eq!(record(&wm, 10).get_rect(), Rect::new(0, 0, 206, 121));
    wm.handle_event(message(2, 0, 110), &mut out);
    assert!(!record(&wm, 10).is_fullscreen() && !record(&wm, 10).is_floating());
    assert_eq!(record(&wm, 10).get_rect(), before);
    wm.handle_event(message(2, 110, 0), &mut out);
    assert!(record(&wm, 10).is_fullscreen());
    wm.handle_event(message(0, 110, 0), &mut out);
    assert!(!record(&wm, 10).is_fullscreen());
    wm.handle_event(message(1, -110, 0), &mut out);
    assert!(!record(&wm, 10).is_fullscreen());
    wm.handle_event(Event::ClientMessage { window: 10, message_type: 5, l0: 1, l1: 110, l2: 0 }, &mut out);
    assert!(!record(&wm, 10).is_fullscreen());
    wm.handle_event(message(1, 111, 0), &mut out);
    assert!(record(&wm, 10).is_floating());
}

#[test]
fn configure_request_of_clients_and_strangers() {
    let mut wm = manager();
    let mut out = Vec::new();
    let request = ConfigureRequest {
        window: 10,
        rect: Rect::new(1, 2, 3, 4),
        above: 8,
        detail: 1,
        value_mask: 1 | 8 | 64,
    };
    wm.handle_event(Event::ConfigureRequest { request }, &mut out);
    assert_eq!(
        out,
        vec![
            Request::Forward { window: 10, rect: Rect::new(1, 2, 3, 4), sibling: 8, stack_mode: 1, mask: 73 },
            Request::Sync,
        ]
    );
    wm.manage_window(window(10), &mut out);
    out.clear();
    wm.on_configure_request(request, &mut out);
    assert_eq!(
        out,
        vec![
            Request::Notify { window: 10, rect: AREA, border: 0 },
            Request::Move { window: 10, x: 0, y: 15 },
            Request::Configure { window: 10, rect: Rect::new(0, 15, 201, 100) },
            Request::Configure { window: 10, rect: AREA },
            Request::Sync,
        ]
    );
    wm.toggle_floating(&mut out);
    out.clear();
    wm.on_configure_request(request, &mut out);
    assert_eq!(record(&wm, 10).get_rect(), Rect::new(1, 15, 200, 4));
    assert_eq!(
        out,
        vec![Request::Configure { window: 10, rect: Rect::new(1, 15, 200, 4) }, Request::Sync]
    );
    wm.select_tag(TAG_OVERVIEW, &mut out);
    out.clear();
    wm.on_configure_request(request, &mut out);
    assert_eq!(
        out,
        vec![
            Request::Forward { window: 10, rect: Rect::new(0, 0, 0, 0), sibling: 8, stack_mode: 1, mask: 64 },
            Request::Sync,
        ]
    );
}

#[test]
fn root_resize_is_taken_note_of() {
    let mut wm = manager();
    let mut out = Vec::new();
    wm.handle_event(Event::ConfigureNotify { window: ROOT, width: 206, height: 121 }, &mut out);
    wm.handle_event(Event::ConfigureNotify { window: 5, width: 1, height: 1 }, &mut out);
    assert!(out.is_empty());
    wm.manage_window(window(10), &mut out);
    out.clear();
    wm.handle_event(Event::ConfigureNotify { window: ROOT, width: 300, height: 200 }, &mut out);
    assert_eq!((wm.screen_width, wm.screen_height), (300, 200));
    assert_eq!(out[0], Request::Configure { window: 10, rect: AREA });
}

#[test]
fn property_notify_updates_title_and_type() {
    let mut wm = manager();
    let mut out = Vec::new();
    wm.manage_window(window(10), &mut out);
    out.clear();
    let notify = |atom: u64, name: Option<&str>, window_type: Option<u64>| Event::PropertyNotify {
        window: 10,
        atom,
        net_name: None,
        name: name.map(|n| n.to_string()),
        window_state: None,
        window_type,
    };
    wm.handle_event(notify(39, Some("shell"), None), &mut out);
    assert_eq!(record(&wm, 10).get_title(), "shell");
    assert_eq!(out, vec![Request::Log]);
    wm.handle_event(notify(107, None, None), &mut out);
    assert_eq!(record(&wm, 10).get_title(), "Unknown");
    out.clear();
    wm.handle_event(notify(40, Some("x"), Some(115)), &mut out);
    wm.handle_event(notify(41, Some("x"), Some(115)), &mut out);
    assert_eq!(record(&wm, 10).get_title(), "Unknown");
    assert!(!record(&wm, 10).is_dock() && out.is_empty());
    wm.handle_event(notify(113, Some("x"), Some(115)), &mut out);
    assert!(record(&wm, 10).is_dock());
    assert_eq!(record(&wm, 10).get_title(), "Unknown");
}

#[test]
fn focus_in_gives_the_keyboard_back() {
    let mut wm = manager();
    let mut out = Vec::new();
    wm.handle_event(Event::FocusIn { window: 3 }, &mut out);
    assert!(out.is_empty());
    wm.manage_window(window(10), &mut out);
    out.clear();
    wm.handle_event(Event::FocusIn { window: 10 }, &mut out);
    assert_eq!(out, vec![Request::Log]);
    out.clear();
    wm.handle_event(Event::FocusIn { window: 3 }, &mut out);
    assert_eq!(
        out,
        vec![
            Request::GrabButtons { window: 10, focused: true },
            Request::Focus { window: 10, focused: true },
            Request::Stack { window: 10, sibling: ANCHOR, above: true },
            Request::Log,
            Request::Log,
        ]
    );
}

#[test]
fn mapping_notify_grabs_the_keys_again() {
    let mut wm = manager_with(Config::new(MOD).keys(vec![(MOD, 7, WmAction::KillClient)]).no_default_keys());
    let mut out = Vec::new();
    wm.handle_event(Event::MappingNotify { mapping: 0 }, &mut out);
    assert!(out.is_empty());
    wm.handle_event(Event::MappingNotify { mapping: 1 }, &mut out);
    assert_eq!(
        out,
        vec![
            Request::UngrabKeys,
            Request::GrabKey { modifiers: MOD, keysym: 7 },
            Request::GrabKey { modifiers: MOD | 2, keysym: 7 },
        ]
    );
}

#[test]
fn button_press_focuses_and_begins_a_drag() {
    let mut wm = manager();
    let mut out = Vec::new();
    wm.manage_window(window(10), &mut out);
    wm.manage_window(window(11), &mut out);
    let press = |window: u64, button: u32, state: u32| Event::ButtonPress { window, button, state };
    assert_eq!(wm.handle_event(press(10, 1, 0), &mut out), None);
    assert_eq!(wm.current_focused(), Some(10));
    assert_eq!(wm.handle_event(press(11, 1, MOD), &mut out), Some(DragKind::Move));
    assert_eq!(wm.current_focused(), Some(11));
    assert_eq!(wm.handle_event(press(11, 3, MOD | 1), &mut out), Some(DragKind::Resize));
    assert_eq!(wm.handle_event(press(11, 2, MOD), &mut out), None);
    assert_eq!(wm.handle_event(press(99, 1, MOD), &mut out), None);
}

#[test]
fn drag_moves_and_resizes_a_floating_client() {
    let mut wm = manager();
    let mut out = Vec::new();
    wm.manage_window(window(10), &mut out);
    assert_eq!(wm.move_mouse(99, 0, 0), None);
    let mut drag = wm.move_mouse(10, 100, 100).unwrap();
    assert_eq!(
        drag,
        Drag { kind: DragKind::Move, window: 10, origin: AREA, pointer_x: 100, pointer_y: 100, last_time: 0 }
    );
    out.clear();
    wm.drag_motion(&mut drag, 1000, 110, 120, &mut out);
    assert!(out.is_empty());
    assert_eq!(drag.last_time, 1000);
    wm.toggle_floating(&mut out);
    out.clear();
    wm.drag_motion(&mut drag, 1015, 110, 120, &mut out);
    assert!(out.is_empty());
    assert_eq!(drag.last_time, 1000);
    wm.drag_motion(&mut drag, 1016, 110, 120, &mut out);
    assert_eq!(out, vec![Request::Move { window: 10, x: 10, y: 35 }]);
    assert_eq!(record(&wm, 10).get_rect(), Rect::new(10, 35, 200, 100));
    assert_eq!(drag.last_time, 1016);
    wm.drag_motion(&mut drag, 5, i32::MAX, 0, &mut out);
    assert_eq!(record(&wm, 10).get_rect(), Rect::new(i32::MAX - 100, -85, 200, 100));
    wm.drag_end(&drag, &mut out);
    out.clear();
    let mut drag = wm.resize_mouse(10, &mut out).unwrap();
    assert_eq!(out, vec![Request::Warp { window: 10, x: 202, y: 102 }, Request::Sync]);
    out.clear();
    wm.drag_motion(&mut drag, 50, i32::MAX, 200, &mut out);
    assert_eq!(
        out,
        vec![Request::Configure { window: 10, rect: Rect::new(i32::MAX - 100, -85, 95, 280) }]
    );
    wm.drag_motion(&mut drag, 100, i32::MIN, i32::MIN, &mut out);
    assert_eq!(record(&wm, 10).get_rect(), Rect::new(i32::MAX - 100, -85, 1, 1));
    out.clear();
    wm.drag_end(&drag, &mut out);
    assert_eq!(out, vec![Request::Warp { window: 10, x: 3, y: 3 }]);
    wm.set_fullscreen(10, true, &mut out);
    assert_eq!(wm.move_mouse(10, 0, 0), None);
    assert_eq!(wm.resize_mouse(10, &mut out), None);
}

#[test]
fn zoom_and_focus_index() {
    let mut wm = manager();
    let mut out = Vec::new();
    wm.manage_window(window(10), &mut out);
    wm.manage_window(window(11), &mut out);
    wm.manage_window(window(12), &mut out);
    assert_eq!(wm.current_clients(), vec![11, 10, 12]);
    wm.set_focus_index(Some(1), &mut out);
    assert_eq!(ring(&wm, b'1'), (vec![12, 11], Some(10), vec![]));
    wm.set_focus_index(Some(7), &mut out);
    assert_eq!(wm.current_focused(), Some(10));
    wm.zoom(&mut out);
    assert_eq!(ring(&wm, b'1'), (vec![], Some(10), vec![12, 11]));
    wm.shift_focus(1, &mut out);
    assert_eq!(wm.current_focused(), Some(12));
    wm.shift_focus(0, &mut out);
    assert_eq!(wm.current_focused(), Some(10));
    wm.set_focus(11, &mut out);
    assert_eq!(wm.current_focused(), Some(11));
    wm.set_focus(99, &mut out);
    assert_eq!(wm.current_focused(), Some(11));
    wm.current_workspace_mut().set_description("mail".to_string());
    assert_eq!(wm.current_workspace().get_description(), Some(&"mail".to_string()));
}

#[test]
fn update_client_list_names_every_client() {
    let mut wm = manager();
    let mut out = Vec::new();
    wm.manage_window(window(10), &mut out);
    wm.select_tag(b'2', &mut out);
    wm.manage_window(window(20), &mut out);
    out.clear();
    wm.update_client_list(&mut out);
    assert_eq!(
        out,
        vec![
            Request::ClearClientList,
            Request::AppendClientList { window: 10 },
            Request::AppendClientList { window: 20 },
        ]
    );
    out.clear();
    wm.do_log(&mut out);
    assert_eq!(out, vec![Request::Log]);
}

#[test]
fn events_through_the_trait() {
    let mut wm = manager();
    let mut out = Vec::new();
    XWindowManager::on_map_request(&mut wm, window(10), &mut out);
    XWindowManager::on_map_request(&mut wm, window(11), &mut out);
    assert_eq!(wm.current_focused(), Some(11));
    XWindowManager::on_key_press(&mut wm, KEY_J, MOD, &mut out);
    assert_eq!(wm.current_focused(), Some(10));
    assert_eq!(XWindowManager::on_button_press(&mut wm, 11, 1, MOD, &mut out), Some(DragKind::Move));
    assert_eq!(wm.current_focused(), Some(11));
    XWindowManager::on_unmap_notify(&mut wm, 11, false, &mut out);
    XWindowManager::on_destroy_notify(&mut wm, 10, &mut out);
    assert!(wm.clients.is_empty());
    out.clear();
    XWindowManager::on_enter_notify(&wm);
    XWindowManager::on_expose_notify(&wm);
    XWindowManager::on_motion_notify(&wm);
    XWindowManager::on_mapping_notify(&wm, 0, &mut out);
    XWindowManager::on_focus_in(&mut wm, 3, &mut out);
    XWindowManager::on_configure_notify(&mut wm, 5, 1, 1, &mut out);
    XWindowManager::on_client_message(&mut wm, 5, 108, 1, 110, 0, &mut out);
    XWindowManager::on_property_notify(&mut wm, 5, 39, None, None, None, None, &mut out);
    assert!(out.is_empty());
}

#[test]
fn check_tells_whether_the_manager_is_sound() {
    let mut wm = manager();
    assert!(wm.check());
    wm.current_tag = b'x';
    assert!(!wm.check());
    wm.current_tag = b'1';
    wm.workspaces.pop();
    assert!(!wm.check());
}

#[test]
fn workspaces_on_another_monitor_stay_on_the_screen() {
    let mut s = screen();
    s.rects = vec![Rect::new(0, 0, 206, 121), Rect::new(206, 0, 206, 121)];
    let mut out = Vec::new();
    let mut wm = WindowManager::new(Config::new(MOD), s, &mut out);
    wm.manage_window(window(10), &mut out);
    wm.select_tag(b'2', &mut out);
    wm.manage_window(window(20), &mut out);
    assert_eq!(record(&wm, 20).get_rect(), Rect::new(206, 15, 200, 100));
    wm.select_tag(b'3', &mut out);
    wm.manage_window(window(30), &mut out);
    out.clear();
    wm.select_tag(b'1', &mut out);
    assert!(!out.iter().any(|r| matches!(r, Request::Move { .. })));
    out.clear();
    wm.select_tag(b'2', &mut out);
    let moved: Vec<u64> = out
        .iter()
        .filter_map(|r| match r {
            Request::Move { window, .. } => Some(*window),
            _ => None,
        })
        .collect();
    assert_eq!(moved, vec![30]);
}

#[test]
fn overview_orders_clients_by_falling_tag() {
    let mut wm = manager_with(
        Config::new(MOD).tag_layout(vec![(TAG_OVERVIEW, Layout::Overview(Overview))]),
    );
    let mut out = Vec::new();
    for (tag, windows) in [(b'2', [20u64, 21]), (b'1', [10, 11]), (b'3', [30, 31])] {
        wm.select_tag(tag, &mut out);
        for w in windows {
            wm.manage_window(window(w), &mut out);
        }
    }
    assert_eq!(wm.all_clients(), vec![10, 11, 20, 21, 30, 31]);
    wm.select_tag(TAG_OVERVIEW, &mut out);
    assert_eq!(ring(&wm, TAG_OVERVIEW), (vec![], Some(11), vec![10, 21, 20, 31, 30]));
    assert_eq!(wm.current_clients(), vec![10, 21, 20, 31, 30, 11]);
    out.clear();
    wm.shift_focus(1, &mut out);
    assert_eq!(wm.current_focused(), Some(10));
    wm.perform(&WmAction::Promote, KeyTable::Keys, 15, &mut out);
    assert_eq!((wm.current_tag, wm.current_focused()), (b'1', Some(10)));
    assert_eq!(ring(&wm, b'1'), (vec![11], Some(10), vec![]));
}

fn rings_with(wm: &WindowManager, window: u64) -> Vec<(u8, usize)> {
    wm.workspaces
        .iter()
        .filter(|w| w.tag != TAG_OVERVIEW)
        .map(|w| (w.tag, w.iter().iter().filter(|c| **c == window).count()))
        .filter(|(_, count)| *count > 0)
        .collect()
}

#[test]
fn sticky_client_is_in_one_ring_only() {
    let mut wm = manager();
    let mut out = Vec::new();
    for w in [10u64, 11, 12, 13] {
        wm.manage_window(window(w), &mut out);
    }
    record_mut(&mut wm, 11).set_sticky(true);
    record_mut(&mut wm, 13).set_sticky(true);
    assert_eq!(ring(&wm, b'1'), (vec![], Some(13), vec![12, 11, 10]));
    wm.select_tag(b'2', &mut out);
    assert_eq!(rings_with(&wm, 11), vec![(b'2', 1)]);
    assert_eq!(rings_with(&wm, 13), vec![(b'2', 1)]);
    assert_eq!(rings_with(&wm, 10), vec![(b'1', 1)]);
    assert_eq!(rings_with(&wm, 12), vec![(b'1', 1)]);
    assert_eq!(ring(&wm, b'1'), (vec![], Some(12), vec![10]));
    assert_eq!((record(&wm, 10).tag(), record(&wm, 12).tag()), (b'1', b'1'));
    assert_eq!((record(&wm, 11).tag(), record(&wm, 13).tag()), (b'2', b'2'));
    assert!(record(&wm, 11).is_sticky() && !record(&wm, 10).is_sticky());
    wm.select_tag(b'1', &mut out);
    assert_eq!(rings_with(&wm, 11), vec![(b'1', 1)]);
    assert_eq!(rings_with(&wm, 13), vec![(b'1', 1)]);
    assert_eq!((record(&wm, 11).tag(), record(&wm, 13).tag()), (b'1', b'1'));
    assert_eq!(ring(&wm, b'1'), (vec![], Some(13), vec![11, 12, 10]));
    let order: Vec<u64> = wm.current_clients().into_iter().filter(|c| *c == 10 || *c == 12).collect();
    assert_eq!(order, vec![12, 10]);
    assert!(record(&wm, 13).is_sticky());
}

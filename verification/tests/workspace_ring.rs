use std::collections::VecDeque;
use std::rc::Rc;

use rswm::client::{ClientFilter, ClientW};
use rswm::config::Config;
use rswm::display::{Protocol, Request};
use rswm::layout::{Layout, Overview, Tile};
use rswm::rect::Rect;
use rswm::ring::FocusShift;
use rswm::workspace::Workspace;

fn workspace() -> Workspace {
    Workspace::new(
        Rc::new(Config::new(0x40)),
        99,
        b'1',
        None,
        Layout::Tile(Tile),
        Rect::new(0, 0, 100, 100),
    )
}

fn ring(w: &Workspace) -> (Vec<u64>, Option<u64>, Vec<u64>) {
    (
        w.clients_prev.iter().cloned().collect(),
        w.client_current,
        w.clients_next.iter().cloned().collect(),
    )
}

fn members(w: &Workspace) -> Vec<u64> {
    let mut all = w.iter();
    all.sort();
    all
}

fn filled(windows: &[u64]) -> Workspace {
    let mut w = workspace();
    let mut out = Vec::new();
    for window in windows {
        w.new_client(*window, false, &mut out);
    }
    w
}

#[test]
fn three_clients_added_at_the_head() {
    let mut w = workspace();
    let mut out = Vec::new();
    let clients = Vec::new();
    w.new_client(1, false, &mut out);
    w.new_client(2, false, &mut out);
    w.new_client(3, false, &mut out);
    assert_eq!(ring(&w), (vec![], Some(3), vec![2, 1]));
    w.circle_focus(FocusShift::Backward, &clients, &mut out);
    assert_eq!(ring(&w), (vec![3, 2], Some(1), vec![]));
    w.circle_focus(FocusShift::Forward, &clients, &mut out);
    assert_eq!(ring(&w), (vec![], Some(3), vec![2, 1]));
    w.circle_focus(FocusShift::Forward, &clients, &mut out);
    assert_eq!(ring(&w), (vec![3], Some(2), vec![1]));
}

#[test]
fn new_workspace_is_empty() {
    let w = workspace();
    assert_eq!(ring(&w), (vec![], None, vec![]));
    assert_eq!(w.get_current_focused(), None);
    assert_eq!(w.get_description(), None);
    assert_eq!((w.tag, w.anchor_window, w.rect), (b'1', 99, Rect::new(0, 0, 100, 100)));
    assert!(w.iter().is_empty());
}

#[test]
fn operations_on_an_empty_ring_do_nothing() {
    let mut w = workspace();
    let mut out = Vec::new();
    let clients = Vec::new();
    w.shift_focus(FocusShift::Forward, &mut out);
    w.shift_focus(FocusShift::Backward, &mut out);
    w.circle_focus(FocusShift::Forward, &clients, &mut out);
    w.circle_focus(FocusShift::Backward, &clients, &mut out);
    w.remove_client(5, &mut out);
    w.set_focus(5, &mut out);
    w.zoom(&mut out);
    w.kill_client(&mut out);
    w.restack(&clients, &mut out);
    assert_eq!(w.detach_current(&mut out), None);
    assert_eq!(ring(&w), (vec![], None, vec![]));
    assert!(out.is_empty());
}

#[test]
fn new_client_at_focus_goes_before_the_focus() {
    let mut w = filled(&[1, 2, 3]);
    let mut out = Vec::new();
    w.shift_focus(FocusShift::Forward, &mut out);
    assert_eq!(ring(&w), (vec![3], Some(2), vec![1]));
    out.clear();
    w.new_client(9, true, &mut out);
    assert_eq!(ring(&w), (vec![3], Some(9), vec![2, 1]));
    assert_eq!(
        out,
        vec![
            Request::GrabButtons { window: 9, focused: true },
            Request::Focus { window: 2, focused: false },
            Request::GrabButtons { window: 2, focused: false },
        ]
    );
}

#[test]
fn shift_focus_moves_one_step() {
    let mut w = filled(&[1, 2, 3]);
    let mut out = Vec::new();
    w.shift_focus(FocusShift::Backward, &mut out);
    assert_eq!(ring(&w), (vec![], Some(3), vec![2, 1]));
    assert!(out.is_empty());
    w.shift_focus(FocusShift::Forward, &mut out);
    assert_eq!(ring(&w), (vec![3], Some(2), vec![1]));
    assert_eq!(
        out,
        vec![
            Request::GrabButtons { window: 2, focused: true },
            Request::Focus { window: 3, focused: false },
            Request::GrabButtons { window: 3, focused: false },
        ]
    );
    w.shift_focus(FocusShift::Forward, &mut out);
    w.shift_focus(FocusShift::Forward, &mut out);
    assert_eq!(ring(&w), (vec![3, 2], Some(1), vec![]));
    w.shift_focus(FocusShift::Backward, &mut out);
    assert_eq!(ring(&w), (vec![3], Some(2), vec![1]));
}

#[test]
fn circle_focus_comes_back_after_as_many_steps_as_clients() {
    for n in 1..7u64 {
        let windows: Vec<u64> = (1..=n).collect();
        let mut w = filled(&windows);
        let mut out = Vec::new();
        let clients = Vec::new();
        w.shift_focus(FocusShift::Forward, &mut out);
        let start = ring(&w);
        for step in 1..=n {
            w.circle_focus(FocusShift::Forward, &clients, &mut out);
            if step < n {
                assert_ne!(ring(&w).1, start.1);
            }
        }
        assert_eq!(ring(&w), start);
        for _ in 0..n {
            w.circle_focus(FocusShift::Backward, &clients, &mut out);
        }
        assert_eq!(ring(&w), start);
    }
}

#[test]
fn ring_holds_what_was_added_and_not_removed() {
    let mut w = workspace();
    let mut out = Vec::new();
    w.new_client(1, false, &mut out);
    w.new_client(2, true, &mut out);
    w.remove_client(7, &mut out);
    w.new_client(3, false, &mut out);
    w.shift_focus(FocusShift::Forward, &mut out);
    w.new_client(4, true, &mut out);
    assert_eq!(members(&w), vec![1, 2, 3, 4]);
    assert!(w.client_current.is_some());
    w.remove_client(2, &mut out);
    assert_eq!(members(&w), vec![1, 3, 4]);
    w.remove_client(2, &mut out);
    assert_eq!(members(&w), vec![1, 3, 4]);
    w.shift_focus(FocusShift::Backward, &mut out);
    w.remove_client(4, &mut out);
    w.remove_client(1, &mut out);
    assert_eq!(members(&w), vec![3]);
    assert_eq!(w.client_current, Some(3));
    w.remove_client(3, &mut out);
    assert_eq!(ring(&w), (vec![], None, vec![]));
}

#[test]
fn removing_the_focused_client_promotes_a_neighbour() {
    let mut w = filled(&[1, 2, 3]);
    let mut out = Vec::new();
    w.shift_focus(FocusShift::Forward, &mut out);
    assert_eq!(ring(&w), (vec![3], Some(2), vec![1]));
    out.clear();
    w.remove_client(2, &mut out);
    assert_eq!(ring(&w), (vec![3], Some(1), vec![]));
    assert_eq!(
        out,
        vec![
            Request::GrabButtons { window: 1, focused: true },
            Request::Focus { window: 2, focused: false },
            Request::GrabButtons { window: 2, focused: false },
        ]
    );
    w.remove_client(1, &mut out);
    assert_eq!(ring(&w), (vec![], Some(3), vec![]));
}

#[test]
fn detach_current_hands_back_the_focused_client() {
    let mut w = filled(&[1, 2, 3]);
    let mut out = Vec::new();
    assert_eq!(w.detach_current(&mut out), Some(3));
    assert_eq!(ring(&w), (vec![], Some(2), vec![1]));
    assert_eq!(w.detach_current(&mut out), Some(2));
    assert_eq!(w.detach_current(&mut out), Some(1));
    assert_eq!(w.detach_current(&mut out), None);
    let mut w = filled(&[1, 2]);
    w.shift_focus(FocusShift::Forward, &mut out);
    assert_eq!(ring(&w), (vec![2], Some(1), vec![]));
    assert_eq!(w.detach_current(&mut out), Some(1));
    assert_eq!(ring(&w), (vec![], Some(2), vec![]));
}

#[test]
fn set_focus_rotates_to_the_client() {
    let mut w = filled(&[1, 2, 3, 4, 5]);
    let mut out = Vec::new();
    w.set_focus(2, &mut out);
    assert_eq!(ring(&w), (vec![5, 4, 3], Some(2), vec![1]));
    w.set_focus(5, &mut out);
    assert_eq!(ring(&w), (vec![], Some(5), vec![4, 3, 2, 1]));
    w.set_focus(3, &mut out);
    assert_eq!(ring(&w), (vec![5, 4], Some(3), vec![2, 1]));
    out.clear();
    w.set_focus(3, &mut out);
    assert_eq!(ring(&w), (vec![5, 4], Some(3), vec![2, 1]));
    assert_eq!(out, vec![Request::GrabButtons { window: 3, focused: true }]);
    out.clear();
    w.set_focus(77, &mut out);
    assert_eq!(ring(&w), (vec![5, 4], Some(3), vec![2, 1]));
    assert!(out.is_empty());
}

#[test]
fn zoom_moves_the_focused_client_to_the_head() {
    let mut w = filled(&[1, 2, 3, 4]);
    let mut out = Vec::new();
    w.set_focus(2, &mut out);
    assert_eq!(ring(&w), (vec![4, 3], Some(2), vec![1]));
    w.zoom(&mut out);
    assert_eq!(ring(&w), (vec![], Some(2), vec![4, 3, 1]));
}

#[test]
fn clear_and_lookup() {
    let mut w = filled(&[1, 2, 3]);
    assert_eq!(w.get_client_by_window(3), Some(3));
    assert_eq!(w.get_client_by_window(1), Some(1));
    assert_eq!(w.get_client_by_window(8), None);
    assert_eq!(w.iter(), vec![2, 1, 3]);
    w.clear();
    assert_eq!(ring(&w), (vec![], None, vec![]));
    assert_eq!(w.clients_prev, VecDeque::new());
}

#[test]
fn description_and_rect_can_change() {
    let mut w = workspace();
    w.set_description("mail".to_string());
    assert_eq!(w.get_description(), Some(&"mail".to_string()));
    w.update_rect(Rect::new(5, 6, 7, 8));
    assert_eq!(w.rect, Rect::new(5, 6, 7, 8));
}

fn record(window: u64, floating: bool) -> ClientW {
    let mut c = ClientW::new(1, window, 99, b'1', None);
    c.set_floating(floating);
    c.0.set_size(1, 2, 30, 40);
    c
}

#[test]
fn restack_puts_the_focus_on_top() {
    let w = filled(&[1, 2]);
    let mut out = Vec::new();
    w.restack(&vec![record(1, false), record(2, false)], &mut out);
    assert_eq!(
        out,
        vec![
            Request::Focus { window: 2, focused: true },
            Request::Stack { window: 2, sibling: 99, above: true },
            Request::Stack { window: 1, sibling: 2, above: false },
        ]
    );
    out.clear();
    w.restack(&vec![record(1, false), record(2, true)], &mut out);
    assert_eq!(
        out,
        vec![Request::Focus { window: 2, focused: true }, Request::Raise { window: 2 }]
    );
}

#[test]
fn restack_puts_the_other_tiled_clients_below_in_ring_order() {
    let mut w = filled(&[1, 2, 3, 4, 5]);
    let mut out = Vec::new();
    w.set_focus(3, &mut out);
    assert_eq!(ring(&w), (vec![5, 4], Some(3), vec![2, 1]));
    assert_eq!(w.others(), vec![5, 4, 2, 1]);
    let clients =
        vec![record(1, false), record(2, true), record(3, false), record(4, false), record(5, false)];
    out.clear();
    w.restack(&clients, &mut out);
    assert_eq!(
        out,
        vec![
            Request::Focus { window: 3, focused: true },
            Request::Stack { window: 3, sibling: 99, above: true },
            Request::Stack { window: 5, sibling: 3, above: false },
            Request::Stack { window: 4, sibling: 5, above: false },
            Request::Stack { window: 1, sibling: 4, above: false },
        ]
    );
}

#[test]
fn kill_client_asks_the_focused_client_to_close() {
    let w = filled(&[1, 2]);
    let mut out = Vec::new();
    w.kill_client(&mut out);
    assert_eq!(out, vec![Request::Send { window: 2, protocol: Protocol::Delete }]);
}

#[test]
fn select_clients_by_marks() {
    let w = filled(&[1, 2, 3]);
    let mut sticky = record(3, true);
    sticky.set_sticky(true);
    let clients = vec![record(1, false), record(2, true), sticky];
    assert_eq!(w.select_clients(&clients, ClientFilter::All), vec![2, 1, 3]);
    assert_eq!(w.select_clients(&clients, ClientFilter::Floating), vec![2, 3]);
    assert_eq!(w.select_clients(&clients, ClientFilter::Tiled), vec![1]);
    assert_eq!(w.select_clients(&clients, ClientFilter::Sticky), vec![3]);
    assert_eq!(w.select_clients(&clients, ClientFilter::Settled), vec![2, 1]);
    assert_eq!(w.select_clients(&vec![record(1, false)], ClientFilter::All), vec![1]);
}

#[test]
fn show_moves_clients_on_and_off_the_screen() {
    let w = filled(&[1, 2]);
    let mut clients = vec![record(1, false), record(2, false)];
    let mut out = Vec::new();
    w.show(false, &mut clients, &mut out);
    assert_eq!(
        out,
        vec![Request::Move { window: 1, x: -300, y: 2 }, Request::Move { window: 2, x: -300, y: 2 }]
    );
    assert_eq!(clients[0].get_rect(), Rect::new(1, 2, 30, 40));
    out.clear();
    w.show(true, &mut clients, &mut out);
    assert_eq!(
        out[..3],
        [
            Request::Move { window: 1, x: 1, y: 2 },
            Request::Configure { window: 1, rect: Rect::new(1, 2, 31, 40) },
            Request::Configure { window: 1, rect: Rect::new(1, 2, 30, 40) },
        ]
    );
    assert_eq!(out.len(), 6);
    assert_eq!(clients[1].get_rect(), Rect::new(1, 2, 30, 40));
    assert_eq!(clients[1].0.old_rect, Rect::new(1, 2, 31, 40));
}

#[test]
fn arrange_places_tiles_and_raises_floating_clients() {
    let mut w = filled(&[1, 2, 3]);
    w.update_rect(Rect::new(0, 0, 206, 121));
    let mut clients = vec![record(1, false), record(2, true), record(3, false)];
    clients[2].set_maximized(true);
    let mut out = Vec::new();
    w.arrange(&mut clients, &mut out);
    let area = Rect::new(0, 15, 200, 100);
    assert_eq!(w.work_area(), Some(area));
    assert_eq!(
        out,
        vec![
            Request::Configure { window: 1, rect: Rect::new(0, 15, 97, 100) },
            Request::Configure { window: 3, rect: area },
            Request::Configure { window: 2, rect: Rect::new(1, 2, 30, 40) },
            Request::Raise { window: 2 },
        ]
    );
    assert_eq!(clients[0].get_rect(), Rect::new(0, 15, 97, 100));
    assert_eq!(clients[0].0.old_rect, Rect::new(1, 2, 30, 40));
    assert_eq!(clients[2].get_rect(), area);
    assert_eq!(clients[1].get_rect(), Rect::new(1, 2, 30, 40));
}

#[test]
fn arrange_on_a_second_monitor_starts_at_its_top() {
    let mut w = filled(&[1]);
    w.update_rect(Rect::new(100, 30, 206, 121));
    let mut clients = vec![record(1, false)];
    let mut out = Vec::new();
    w.arrange(&mut clients, &mut out);
    assert_eq!(out, vec![Request::Configure { window: 1, rect: Rect::new(100, 30, 200, 85) }]);
}

#[test]
fn arrange_leaves_alone_what_is_out_of_range() {
    let mut w = filled(&[1]);
    w.update_rect(Rect::new(0, 0, i32::MIN, 121));
    let mut clients = vec![record(1, false)];
    let mut out = Vec::new();
    assert_eq!(w.work_area(), None);
    w.arrange(&mut clients, &mut out);
    assert!(out.is_empty());
    assert_eq!(clients[0].get_rect(), Rect::new(1, 2, 30, 40));
}

#[test]
fn the_layout_of_the_overview_leaves_the_records_alone() {
    let mut w = Workspace::new(
        Rc::new(Config::new(0x40).overview_inset(0).border_width(0).bar_height(0)),
        99,
        b'1',
        None,
        Layout::Overview(Overview),
        Rect::new(0, 0, 100, 100),
    );
    let mut out = Vec::new();
    w.new_client(1, false, &mut out);
    w.new_client(2, false, &mut out);
    let mut clients = vec![record(1, false), record(2, false)];
    clients[0].set_maximized(true);
    out.clear();
    w.arrange(&mut clients, &mut out);
    assert_eq!(
        out,
        vec![
            Request::Configure { window: 1, rect: Rect::new(0, 0, 50, 100) },
            Request::Configure { window: 2, rect: Rect::new(50, 0, 50, 100) },
        ]
    );
    assert_eq!(clients[0].get_rect(), Rect::new(1, 2, 30, 40));
    assert_eq!(clients[1].get_rect(), Rect::new(1, 2, 30, 40));
    assert_eq!(clients[0].0.old_rect, Rect::new(-1, -1, -1, -1));
}

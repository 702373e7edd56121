use rswm::client::{Client, ClientFilter, ClientW};
use rswm::display::{Protocol, Request, WindowState};
use rswm::rect::Rect;

fn client() -> ClientW {
    let mut c = ClientW::new(1, 7, 2, b'3', Some("XTerm".to_string()));
    c.0.set_size(10, 20, 300, 200);
    c
}

#[test]
fn new_client_is_tiled_and_unplaced() {
    let c = ClientW::new(1, 7, 2, b'3', None);
    assert_eq!((c.window(), c.tag()), (7, b'3'));
    assert_eq!(c.get_title(), "broken");
    assert_eq!(c.get_class(), "broken");
    assert_eq!(c.get_rect(), Rect::new(-1, -1, -1, -1));
    assert_eq!(c.0.old_rect, Rect::new(-1, -1, -1, -1));
    assert!(!c.is_floating() && !c.is_sticky() && !c.is_dock() && !c.is_above());
    assert!(!c.is_maximized() && !c.is_fullscreen() && !c.0.was_floating && !c.0.is_dialog);
    assert_eq!((c.0.border, c.0.old_border, c.0.weight), (0, 0, -1));
    assert_eq!((c.0.root, c.0.anchor_window), (1, 2));
    assert_eq!(client().get_class(), "XTerm");
    assert_eq!(Client::new(1, 7, 2, b'3', None).window, 7);
    assert_eq!(c.borrow().window, 7);
    let mut c = c;
    c.borrow_mut().weight = 4;
    assert_eq!(c.borrow().weight, 4);
}

#[test]
fn fullscreen_and_back_restores_floating_and_geometry() {
    for floating in [false, true] {
        let mut c = client();
        c.set_floating(floating);
        let before = c.get_rect();
        let mut out = Vec::new();
        let screen = Rect::new(0, 0, 1920, 1080);
        c.set_fullscreen(screen, true, &mut out);
        assert!(c.is_fullscreen() && c.is_floating());
        assert_eq!(c.get_rect(), screen);
        assert_eq!(
            out,
            vec![
                Request::Fullscreen { window: 7, fullscreen: true },
                Request::Configure { window: 7, rect: screen },
                Request::Raise { window: 7 },
            ]
        );
        out.clear();
        c.set_fullscreen(screen, false, &mut out);
        assert!(!c.is_fullscreen());
        assert_eq!(c.is_floating(), floating);
        assert_eq!(c.get_rect(), before);
        assert_eq!(
            out,
            vec![
                Request::Fullscreen { window: 7, fullscreen: false },
                Request::Configure { window: 7, rect: before },
            ]
        );
    }
}

#[test]
fn set_floating_remembers_what_was() {
    let mut c = client();
    c.set_floating(true);
    assert!(c.is_floating() && !c.0.was_floating);
    c.set_floating(true);
    assert!(c.is_floating() && c.0.was_floating);
    c.set_floating(false);
    assert!(!c.is_floating() && c.0.was_floating);
}

#[test]
fn marks_can_be_set() {
    let mut c = client();
    c.set_sticky(true);
    c.set_dock(true);
    c.set_above(true);
    c.set_maximized(true);
    c.set_tag(b'5');
    c.set_border_color(11, 22);
    assert!(c.is_sticky() && c.is_dock() && c.is_above() && c.is_maximized());
    assert_eq!(c.tag(), b'5');
    assert_eq!((c.0.normal_border_color, c.0.focused_border_color), (11, 22));
    assert!(ClientFilter::Sticky.test(&c) && !ClientFilter::Settled.test(&c));
    assert!(ClientFilter::Tiled.test(&c) && !ClientFilter::Floating.test(&c));
    assert!(ClientFilter::All.test(&c));
}

#[test]
fn temporary_resize_keeps_the_geometry() {
    let mut c = client();
    let mut out = Vec::new();
    c.resize(Rect::new(1, 2, 3, 4), true, &mut out);
    assert_eq!(c.get_rect(), Rect::new(10, 20, 300, 200));
    assert_eq!(c.0.old_rect, Rect::new(-1, -1, -1, -1));
    assert_eq!(out, vec![Request::Configure { window: 7, rect: Rect::new(1, 2, 3, 4) }]);
    c.resize(Rect::new(1, 2, 3, 4), false, &mut out);
    assert_eq!(c.get_rect(), Rect::new(1, 2, 3, 4));
    assert_eq!(c.0.old_rect, Rect::new(10, 20, 300, 200));
}

#[test]
fn move_window_saves_only_when_asked() {
    let mut c = client();
    let mut out = Vec::new();
    c.move_window(5, 6, false, &mut out);
    assert_eq!(c.get_rect(), Rect::new(10, 20, 300, 200));
    c.move_window(5, 6, true, &mut out);
    assert_eq!(c.get_rect(), Rect::new(5, 6, 300, 200));
    assert_eq!(c.0.old_rect, Rect::new(10, 20, 300, 200));
    assert_eq!(out, vec![Request::Move { window: 7, x: 5, y: 6 }; 2]);
}

#[test]
fn show_and_hide() {
    let mut c = client();
    let mut out = Vec::new();
    assert!(c.check_show(true) && c.check_show(false));
    c.show(false, &mut out);
    assert_eq!(out, vec![Request::Move { window: 7, x: -3000, y: 20 }]);
    assert_eq!(c.get_rect(), Rect::new(10, 20, 300, 200));
    out.clear();
    c.show(true, &mut out);
    assert_eq!(
        out,
        vec![
            Request::Move { window: 7, x: 10, y: 20 },
            Request::Configure { window: 7, rect: Rect::new(10, 20, 301, 200) },
            Request::Configure { window: 7, rect: Rect::new(10, 20, 300, 200) },
        ]
    );
    assert_eq!(c.get_rect(), Rect::new(10, 20, 300, 200));
    let mut wide = client();
    wide.0.set_size(0, 0, i32::MAX, 5);
    assert!(!wide.check_show(true) && !wide.check_show(false));
    wide.0.set_size(0, 0, 214748364, 5);
    assert!(wide.check_show(false));
    wide.0.set_size(0, 0, 214748365, 5);
    assert!(!wide.check_show(false));
}

#[test]
fn invalidate_nudges_the_width() {
    let mut c = client();
    let mut out = Vec::new();
    c.invalidate(&mut out);
    assert_eq!(out.len(), 2);
    assert_eq!(c.get_rect(), Rect::new(10, 20, 300, 200));
    assert_eq!(c.0.old_rect, Rect::new(10, 20, 301, 200));
}

#[test]
fn requests_of_a_client() {
    let c = client();
    let mut out = Vec::new();
    c.raise_window(&mut out);
    c.lower_window(&mut out);
    c.grab_buttons(true, &mut out);
    c.grab_buttons(false, &mut out);
    c.focus(true, &mut out);
    c.focus(false, &mut out);
    c.set_state(WindowState::Withdrawn, &mut out);
    c.send_event(Protocol::TakeFocus, &mut out);
    c.configure(&mut out);
    assert_eq!(
        out,
        vec![
            Request::Raise { window: 7 },
            Request::Lower { window: 7 },
            Request::GrabButtons { window: 7, focused: true },
            Request::GrabButtons { window: 7, focused: false },
            Request::Focus { window: 7, focused: true },
            Request::Focus { window: 7, focused: false },
            Request::State { window: 7, state: WindowState::Withdrawn },
            Request::Send { window: 7, protocol: Protocol::TakeFocus },
            Request::Notify { window: 7, rect: Rect::new(10, 20, 300, 200), border: 0 },
        ]
    );
}

#[test]
fn title_follows_the_names_of_the_window() {
    let mut c = client();
    c.update_title(Some("new".to_string()), Some("old".to_string()));
    assert_eq!(c.get_title(), "new");
    c.update_title(None, Some("old".to_string()));
    assert_eq!(c.get_title(), "old");
    c.update_title(None, None);
    assert_eq!(c.get_title(), "Unknown");
}

#[test]
fn dialog_is_read_from_the_window_type() {
    let c = client();
    assert!(c.is_dialog(Some(5), 5));
    assert!(!c.is_dialog(Some(6), 5));
    assert!(!c.is_dialog(None, 5));
}

#[test]
fn extras_hold_the_last_value_of_a_key() {
    let mut c = client();
    assert_eq!(c.get_extra("user_tag"), None);
    c.put_extra("user_tag".to_string(), "mail".to_string());
    c.put_extra("other".to_string(), "x".to_string());
    assert_eq!(c.get_extra("user_tag"), Some("mail".to_string()));
    c.put_extra("user_tag".to_string(), "web".to_string());
    assert_eq!(c.get_extra("user_tag"), Some("web".to_string()));
    assert_eq!(c.get_extra("other"), Some("x".to_string()));
    assert_eq!(c.get_extra("none"), None);
    assert_eq!(c.0.extras.len(), 2);
}

#[test]
fn save_window_size_and_set_size() {
    let mut c = Client::new(1, 7, 2, b'3', None);
    c.set_size(1, 2, 3, 4);
    assert_eq!(c.old_rect, Rect::new(-1, -1, -1, -1));
    c.save_window_size();
    assert_eq!(c.old_rect, Rect::new(1, 2, 3, 4));
    assert_eq!(c.rect, Rect::new(1, 2, 3, 4));
}

#[test]
fn default_client_is_a_new_one() {
    let c = Client::default();
    assert_eq!((c.window, c.root, c.anchor_window, c.tag), (0, 0, 0, 0));
    assert_eq!((c.title.as_str(), c.class.as_str()), ("broken", "broken"));
    assert_eq!((c.rect, c.old_rect, c.weight), (Rect::default(), Rect::default(), -1));
    assert!(!c.is_floating && !c.is_dialog);
}

use rswm::config::{
    define_tags, Config, WmAction, BAR_HEIGHT, BORDER_WIDTH, KEY_DOWN, KEY_E, KEY_F2, KEY_F4, KEY_J,
    KEY_K, KEY_LEFT, KEY_M, KEY_Q, KEY_RETURN, KEY_RIGHT, KEY_UP, OVERVIEW_INSET, TAG_OVERVIEW,
};
use rswm::state::{
    ATOM_WM_NAME, ATOM_WM_NORMAL_HINTS, BUTTON_MOVE, BUTTON_RESIZE,
    CONFIGURE_HEIGHT, CONFIGURE_WIDTH, CONFIGURE_X, CONFIGURE_Y, MAPPING_KEYBOARD,
};
use rswm::util::{
    clean_mask, xerror, CONTROL_MASK, LOCK_MASK, MOD1_MASK, MOD2_MASK, MOD3_MASK, MOD4_MASK,
    MOD5_MASK, SHIFT_MASK,
};

#[test]
fn masks_are_those_of_the_display() {
    assert_eq!(SHIFT_MASK, x11::xlib::ShiftMask);
    assert_eq!(LOCK_MASK, x11::xlib::LockMask);
    assert_eq!(CONTROL_MASK, x11::xlib::ControlMask);
    assert_eq!(MOD1_MASK, x11::xlib::Mod1Mask);
    assert_eq!(MOD2_MASK, x11::xlib::Mod2Mask);
    assert_eq!(MOD3_MASK, x11::xlib::Mod3Mask);
    assert_eq!(MOD4_MASK, x11::xlib::Mod4Mask);
    assert_eq!(MOD5_MASK, x11::xlib::Mod5Mask);
}

#[test]
fn keys_are_those_of_the_display() {
    assert_eq!(KEY_Q, x11::keysym::XK_q);
    assert_eq!(KEY_J, x11::keysym::XK_j);
    assert_eq!(KEY_K, x11::keysym::XK_k);
    assert_eq!(KEY_M, x11::keysym::XK_m);
    assert_eq!(KEY_E, x11::keysym::XK_e);
    assert_eq!(KEY_F2, x11::keysym::XK_F2);
    assert_eq!(KEY_F4, x11::keysym::XK_F4);
    assert_eq!(KEY_LEFT, x11::keysym::XK_Left);
    assert_eq!(KEY_RIGHT, x11::keysym::XK_Right);
    assert_eq!(KEY_UP, x11::keysym::XK_Up);
    assert_eq!(KEY_DOWN, x11::keysym::XK_Down);
    assert_eq!(KEY_RETURN, x11::keysym::XK_Return);
}

#[test]
fn clean_mask_drops_the_lock() {
    assert_eq!(clean_mask(MOD4_MASK | LOCK_MASK), MOD4_MASK);
    assert_eq!(clean_mask(MOD4_MASK | SHIFT_MASK), MOD4_MASK | SHIFT_MASK);
    assert_eq!(clean_mask(0x100 | CONTROL_MASK), CONTROL_MASK);
    assert_eq!(clean_mask(0xffff_ffff), 0xfd);
}

#[test]
fn default_config() {
    let c = Config::new(MOD4_MASK);
    assert_eq!(c.mod_key, MOD4_MASK);
    assert_eq!(c.border_width, BORDER_WIDTH);
    assert_eq!(c.border_width, 3);
    assert_eq!(c.bar_height, BAR_HEIGHT);
    assert_eq!(c.overview_inset, OVERVIEW_INSET);
    assert_eq!(c.window_move_delta, 15);
    assert_eq!(c.window_expand_delta, 10);
    assert_eq!(c.focused_border_color, "RGBi:0.0/1.0/1.0");
    assert_eq!(c.normal_border_color, "RGBi:0.0/0.3/0.3");
    assert_eq!(c.keys.len(), 16);
    assert_eq!(c.tags, b"1234567890".to_vec());
    assert_eq!(c.tag_default, b'1');
    assert_eq!(c.tag_keys.len(), 20);
    assert!(matches!(c.keys[0], (0x40, 0x71, WmAction::Exit)));
    assert!(matches!(c.keys[2], (0x40, 0x6b, WmAction::ShiftFocus(-1))));
    assert!(matches!(c.keys[10], (0x41, 0xFF52, WmAction::ExpandHeight(-10))));
    assert!(matches!(c.keys[14], (0x40, 0xFFBF, WmAction::SelectTag(TAG_OVERVIEW))));
    assert!(matches!(c.keys[15], (0x40, 0xFF0D, WmAction::Promote)));
    assert!(matches!(c.tag_keys[0], (0x40, 0x31, WmAction::SelectTag(b'1'))));
    assert!(matches!(c.tag_keys[9], (0x40, 0x30, WmAction::SelectTag(b'0'))));
    assert!(matches!(c.tag_keys[10], (0x41, 0x31, WmAction::AddTag(b'1'))));
    assert!(c.add_keys.is_empty() && c.rules.is_empty() && c.start_programs.is_empty());
}

#[test]
fn builders_set_one_field() {
    let c = Config::new(MOD4_MASK)
        .border_width(2)
        .bar_height(18)
        .overview_inset(7)
        .tag_default(b'3')
        .window_move_delta(4)
        .window_expand_delta(5)
        .focused_border_color("red")
        .normal_border_color("blue")
        .tag_description(vec![(b'1', "web".to_string()), (b'2', "code".to_string())]);
    assert_eq!((c.border_width, c.bar_height, c.overview_inset), (2, 18, 7));
    assert_eq!((c.window_move_delta, c.window_expand_delta), (4, 5));
    assert_eq!(c.tag_default, b'3');
    assert_eq!((c.focused_border_color, c.normal_border_color), ("red", "blue"));
    assert_eq!(c.get_description(b'2'), Some("code"));
    assert_eq!(c.get_description(b'1'), Some("web"));
    assert_eq!(c.get_description(b'9'), None);
    assert_eq!(c.keys.len(), 16);
    let c = c.no_default_keys();
    assert!(c.tag_keys.is_empty());
    let c = c.tag_keys(define_tags(MOD4_MASK, SHIFT_MASK, &vec![b'7', b'8']));
    assert_eq!(c.tag_default, b'7');
    assert_eq!(c.tag_keys.len(), 4);
    assert!(matches!(c.tag_keys[3], (0x41, 0x38, WmAction::AddTag(b'8'))));
}

#[test]
fn errors_of_the_display() {
    assert!(xerror(1, 3));
    assert!(xerror(42, 8));
    assert!(xerror(74, 9));
    assert!(xerror(70, 9));
    assert!(xerror(66, 9));
    assert!(xerror(12, 8));
    assert!(xerror(28, 10));
    assert!(xerror(33, 10));
    assert!(xerror(62, 9));
    assert!(!xerror(12, 9));
    assert!(!xerror(42, 10));
    assert!(!xerror(1, 1));
    assert_eq!(rswm::util::BAD_WINDOW, x11::xlib::BadWindow);
    assert_eq!(rswm::util::BAD_MATCH, x11::xlib::BadMatch);
    assert_eq!(rswm::util::BAD_DRAWABLE, x11::xlib::BadDrawable);
    assert_eq!(rswm::util::BAD_ACCESS, x11::xlib::BadAccess);
}

#[test]
fn protocol_numbers_are_those_of_the_display() {
    assert_eq!(ATOM_WM_NAME, x11::xlib::XA_WM_NAME);
    assert_eq!(ATOM_WM_NORMAL_HINTS, x11::xlib::XA_WM_NORMAL_HINTS);
    assert_eq!(BUTTON_MOVE, x11::xlib::Button1);
    assert_eq!(BUTTON_RESIZE, x11::xlib::Button3);
    assert_eq!(CONFIGURE_X, x11::xlib::CWX as u64);
    assert_eq!(CONFIGURE_Y, x11::xlib::CWY as u64);
    assert_eq!(CONFIGURE_WIDTH, x11::xlib::CWWidth as u64);
    assert_eq!(CONFIGURE_HEIGHT, x11::xlib::CWHeight as u64);
    assert_eq!(MAPPING_KEYBOARD, x11::xlib::MappingKeyboard);
}

use rswm::atoms::{create_atoms, names, AtomTable};
use rswm::client::ClientW;
use rswm::clients::{apply_action, rank_windows, ClientList};
use rswm::client::ClientFilter;
use rswm::config::{ClientChange, Config};
use rswm::display::Request;
use rswm::extra::{
    add_window_user_tag_dmenu, add_workspace_user_tag_dmenu, line_of, select_window_dmenu,
    select_window_question, window_user_tag_question, workspace_user_tag_question,
};
use rswm::loggers::{DummyLogger, LoggerConfig, XMobarLogger};
use rswm::manager::WindowManager;
use rswm::prompt::DmenuPrompt;
use rswm::rect::Rect;
use rswm::setup::Screen;
use rswm::state::{Colors, NewWindow};

fn table() -> AtomTable {
    create_atoms(&(1..=16).collect()).unwrap()
}

fn manager() -> WindowManager {
    let screen = Screen {
        root: 1,
        anchor_window: 900,
        width: 206,
        height: 121,
        rects: vec![Rect::new(0, 0, 206, 121)],
        atoms: table(),
        colors: Colors { normal_border_color: 5, focused_border_color: 6 },
    };
    let mut out = Vec::new();
    WindowManager::new(Config::new(0x40), screen, &mut out)
}

fn window(window: u64, class: &str, title: &str) -> NewWindow {
    NewWindow {
        window,
        rect: Rect::new(5, 6, 50, 60),
        net_name: None,
        name: Some(title.to_string()),
        class: Some(class.to_string()),
        state: None,
        window_type: None,
    }
}

#[test]
fn atoms_are_made_from_their_numbers() {
    assert_eq!(names().len(), 16);
    assert_eq!(names()[1], "WM_DELETE_WINDOW");
    assert_eq!((names()[5], names()[6]), ("_NET_SUPPORTED", "_NET_WM_NAME"));
    assert_eq!(names()[15], "_NET_WM_STATE_MODAL");
    let t = table();
    assert_eq!((t.wm_protocols(), t.wm_delete(), t.wm_state(), t.wm_take_focus()), (1, 2, 3, 4));
    assert_eq!((t.net_active_window(), t.net_supported(), t.net_wm_name(), t.net_wm_state()), (5, 6, 7, 8));
    assert_eq!((t.net_wm_state_above(), t.net_wm_state_sticky(), t.net_wm_state_fullscreen()), (9, 10, 11));
    assert_eq!((t.net_wm_window_type(), t.net_wm_window_type_dialog(), t.net_wm_window_type_dock()), (12, 13, 14));
    assert_eq!((t.net_client_list(), t.net_wm_state_modal()), (15, 16));
    assert_eq!(create_atoms(&vec![1, 2, 3]), None);
    assert_eq!(create_atoms(&(1..=17).collect()), None);
}

#[test]
fn atoms_have_names() {
    let t = table();
    assert_eq!(t.get_atom(1), "WM_PROTOCOLS");
    assert_eq!(t.get_atom(2), "WM_DELETE_WINDOW");
    assert_eq!(t.get_atom(6), "_NET_SUPPORTED");
    assert_eq!(t.get_atom(7), "_NET_WM_NAME");
    assert_eq!(t.get_atom(8), "_NET_WM_STATE");
    assert_eq!(t.get_atom(11), "_NET_WM_STATE_FULLSCREEN");
    assert_eq!(t.get_atom(15), "_NET_CLIENT_LIST");
    assert_eq!(t.get_atom(16), "Unknown atom: 16");
    assert_eq!(t.get_atom(4711), "Unknown atom: 4711");
}

#[test]
fn prompt_writes_lines_and_reads_an_answer() {
    let selections = vec!["one".to_string(), "two words".to_string()];
    let args = vec!["-p", "tag: "];
    let prompt = DmenuPrompt::new(&selections, &args);
    assert_eq!(prompt.selections.len(), 2);
    assert_eq!(prompt.args, ["-p", "tag: "]);
    assert_eq!(prompt.input(), "one\ntwo words\n");
    assert_eq!(prompt.answer(" two words\n"), "two words");
    let none: Vec<String> = vec![];
    assert_eq!(DmenuPrompt::new(&none, &args).input(), "");
}

#[test]
fn user_tag_is_put_on_the_focused_client() {
    let mut wm = manager();
    let mut out = Vec::new();
    assert!(window_user_tag_question(&wm).is_none());
    add_window_user_tag_dmenu(&mut wm, "mail");
    wm.manage_window(window(10, "XTerm", "shell"), &mut out);
    let question = window_user_tag_question(&wm).unwrap();
    assert_eq!(question.args, vec!["-p", "add uesr tag to XTerm: "]);
    assert!(question.selections.is_empty());
    add_window_user_tag_dmenu(&mut wm, "  \n");
    assert_eq!(wm.clients[0].get_extra("user_tag"), None);
    add_window_user_tag_dmenu(&mut wm, " mail \n");
    assert_eq!(wm.clients[0].get_extra("user_tag"), Some("mail".to_string()));
    assert_eq!(line_of(&wm.clients, 10), "[(mail) XTerm] shell");
    assert_eq!(line_of(&wm.clients, 11), "[() ] ");
}

#[test]
fn workspace_description_comes_from_the_user() {
    let mut wm = manager();
    let question = workspace_user_tag_question();
    assert_eq!(question.args, vec!["-p", "tag: "]);
    add_workspace_user_tag_dmenu(&mut wm, "   ");
    assert_eq!(wm.current_workspace().get_description(), None);
    add_workspace_user_tag_dmenu(&mut wm, " web\n");
    assert_eq!(wm.current_workspace().get_description(), Some(&"web".to_string()));
    assert_eq!(wm.workspaces[1].get_description(), None);
    let mut logger = XMobarLogger::new(LoggerConfig::default());
    assert_eq!(wm.status(&mut logger), "<fc=#00FF00>1 - web</fc> | :: \n");
}

#[test]
fn user_picks_a_window() {
    let mut wm = manager();
    let mut out = Vec::new();
    wm.manage_window(window(10, "XTerm", "shell"), &mut out);
    wm.select_tag(b'2', &mut out);
    wm.manage_window(window(20, "Emacs", "notes "), &mut out);
    wm.manage_window(window(21, "Emacs", "mail"), &mut out);
    let question = select_window_question(&wm);
    assert_eq!(question.selections, vec!["[() XTerm] shell", "[() Emacs] notes ", "[() Emacs] mail"]);
    assert_eq!(question.args.len(), 15);
    assert_eq!((question.args[0].as_str(), question.args[14].as_str()), ("-p", "WenQuanYi Micro Hei Mono-12"));
    out.clear();
    select_window_dmenu(&mut wm, "nothing like it", &mut out);
    assert!(out.is_empty());
    assert_eq!(wm.current_focused(), Some(21));
    select_window_dmenu(&mut wm, "[() Emacs] notes\n", &mut out);
    assert_eq!(wm.current_focused(), Some(20));
    assert_eq!(*out.last().unwrap(), Request::Log);
    select_window_dmenu(&mut wm, " [() XTerm] shell", &mut out);
    assert_eq!(wm.current_tag, b'1');
    assert_eq!(wm.current_focused(), Some(10));
}

fn record(window: u64, tag: u8, sticky: bool, floating: bool, weight: i32) -> ClientW {
    let mut c = ClientW::new(1, window, 2, tag, None);
    c.set_sticky(sticky);
    c.set_floating(floating);
    c.0.weight = weight;
    c.0.set_size(1, 2, 30, 40);
    c
}

fn windows(list: &Vec<ClientW>) -> Vec<u64> {
    list.iter().map(|c| c.window()).collect()
}

#[test]
fn clients_are_ranked() {
    let mut list: Vec<ClientW> = ClientList::new();
    assert!(list.is_empty());
    list.push(record(1, b'2', false, false, 0));
    list.push(record(2, b'1', true, false, 0));
    list.push(record(3, b'1', false, true, 0));
    list.push(record(4, b'1', false, false, -1));
    list.push(record(5, b'1', false, false, 3));
    list.push(record(6, b'1', false, false, -1));
    list.push(record(7, b'2', false, false, 0));
    assert_eq!(rank_windows(&vec![7, 6, 5, 4, 3, 2, 1, 99], &list), vec![5, 6, 4, 3, 7, 1, 2, 99]);
    assert_eq!(list.get_client_by_window(3).map(|c| c.is_floating()), Some(true));
    assert!(list.get_client_by_window(8).is_none());
    list.rank();
    assert_eq!(windows(&list), vec![5, 4, 6, 3, 1, 7, 2]);
    let mut same = record(9, b'1', false, false, 3);
    apply_action(&mut same, &vec![ClientChange::Sticky(true), ClientChange::Floating(true)]);
    assert!(same.is_sticky() && same.is_floating());
}

#[test]
fn clients_are_chosen_and_changed() {
    let mut list = vec![
        record(1, b'2', false, false, 0),
        record(2, b'1', false, true, 0),
        record(3, b'1', false, false, 0),
    ];
    let yes = vec![ClientChange::Sticky(true)];
    let no = vec![ClientChange::Floating(false)];
    let chosen = list.select_clients(ClientFilter::Tiled, true, &yes, &no);
    assert_eq!(chosen, vec![3, 1]);
    assert!(list[0].is_sticky() && list[2].is_sticky() && !list[1].is_sticky());
    assert!(!list[1].is_floating() && list[1].0.was_floating);
    let chosen = list.select_clients(ClientFilter::All, false, &vec![], &vec![]);
    assert_eq!(chosen, vec![1, 2, 3]);
    let mut out = Vec::new();
    list.show(&mut out);
    assert_eq!(out.len(), 9);
    assert_eq!(out[0], Request::Move { window: 1, x: 1, y: 2 });
    assert_eq!(list[0].0.old_rect, Rect::new(1, 2, 31, 40));
}

#[test]
fn status_tells_the_logger_what_the_manager_holds() {
    let mut wm = manager();
    let mut out = Vec::new();
    wm.manage_window(window(10, "XTerm", "shell"), &mut out);
    wm.select_tag(b'2', &mut out);
    wm.manage_window(window(20, "Emacs", "a long title"), &mut out);
    wm.manage_window(window(21, "Emacs", "mail"), &mut out);
    let mut logger = XMobarLogger::new(LoggerConfig::default());
    assert_eq!(
        wm.status(&mut logger),
        "1<fc=#00FF00>2</fc> | :: [<1> a long t ] [<fc=#FFFF00><2> mail </fc>] \n"
    );
    let mut dummy = DummyLogger::new(LoggerConfig::default());
    assert_eq!(wm.status(&mut dummy), "");
}

use std::rc::Rc;

use rswm::client::ClientW;
use rswm::config::Config;
use rswm::layout::{Layout, Tile};
use rswm::loggers::{
    assemble, client_items, insert_tag, is_plain_template, render, render_items, shown_tags,
    tag_items, template_for, text_or_empty, DummyLogger, Logger, LoggerConfig, StatusItem,
    XMobarLogger,
};
use rswm::rect::Rect;
use rswm::util::{decimal, trim, truncate};
use rswm::workspace::Workspace;

fn record(window: u64, tag: u8, title: &str) -> ClientW {
    let mut c = ClientW::new(1, window, 2, tag, None);
    c.update_title(Some(title.to_string()), None);
    c
}

fn workspaces() -> Vec<Workspace> {
    let config = Rc::new(Config::new(0x40));
    let mut list = Vec::new();
    for (tag, description) in [(b'1', Some("web")), (b'2', None), (b'3', Some("code"))] {
        list.push(Workspace::new(
            config.clone(),
            2,
            tag,
            description.map(|d| d.to_string()),
            Layout::Tile(Tile),
            Rect::new(0, 0, 10, 10),
        ));
    }
    list
}

#[test]
fn truncate_keeps_whole_characters() {
    assert_eq!(truncate("hello world", 5), "hello");
    assert_eq!(truncate("hello", 5), "hello");
    assert_eq!(truncate("hi", 5), "hi");
    assert_eq!(truncate("", 3), "");
    assert_eq!(truncate("abc", 0), "");
    assert_eq!(truncate("größer", 3), "grö");
    assert_eq!(truncate("日本語のタイトル", 2), "日本");
}

#[test]
fn decimal_writes_numbers() {
    assert_eq!(decimal(0), "0");
    assert_eq!(decimal(7), "7");
    assert_eq!(decimal(10), "10");
    assert_eq!(decimal(1234567890), "1234567890");
    assert_eq!(decimal(u64::MAX), u64::MAX.to_string());
}

#[test]
fn trim_drops_white_space_around() {
    for text in ["", " ", "a", "  a b  ", "\t\nx\r\n", "\u{a0}x\u{3000}", "\u{2003}a\u{200a}\u{200b}", "x \u{85}", "\u{1680}\u{2028}\u{2029}\u{202f}\u{205f}", "\u{0b}\u{0c}y", "\u{1c}z"] {
        assert_eq!(trim(text), text.trim());
    }
    assert_eq!(trim("  web  "), "web");
}

#[test]
fn tags_are_shown_once_and_in_order() {
    let mut tags = vec![];
    for tag in [b'3', b'1', b'3', b'2', b'1', b'9'] {
        insert_tag(&mut tags, tag);
    }
    assert_eq!(tags, vec![b'1', b'2', b'3', b'9']);
    let records = vec![record(10, b'3', "a"), record(11, b'1', "b"), record(12, b'3', "c")];
    assert_eq!(shown_tags(&records, &vec![10, 11, 12], b'2'), vec![b'1', b'2', b'3']);
    assert_eq!(shown_tags(&records, &vec![10, 11, 12], b'3'), vec![b'1', b'3']);
    assert_eq!(shown_tags(&records, &vec![], b'5'), vec![b'5']);
    assert_eq!(shown_tags(&records, &vec![99], b'5'), vec![0, b'5']);
}

fn contents(items: &Vec<StatusItem>) -> Vec<(bool, String)> {
    items.iter().map(|i| (i.selected, i.content.clone())).collect()
}

#[test]
fn tag_items_name_tags_and_descriptions() {
    let items = tag_items(&workspaces(), &vec![b'1', b'2', b'3', b'7'], b'2');
    assert_eq!(
        contents(&items),
        vec![
            (false, "1 - web".to_string()),
            (true, "2".to_string()),
            (false, "3 - code".to_string()),
            (false, "7".to_string()),
        ]
    );
    let items = tag_items(&workspaces(), &vec![0, b'1'], 0);
    assert_eq!(
        contents(&items),
        vec![(true, "Overview".to_string()), (false, "Overview".to_string())]
    );
}

#[test]
fn client_items_number_the_clients() {
    let records = vec![record(10, b'3', "a long title"), record(11, b'1', "short")];
    let config = LoggerConfig::default();
    let items = client_items(&config, &records, b'1', &vec![11, 10, 12], Some(10));
    assert_eq!(
        contents(&items),
        vec![
            (false, "<1> short ".to_string()),
            (true, "<2> a long t ".to_string()),
            (false, "<3>  ".to_string()),
        ]
    );
    let items = client_items(&config.client_title_length(3), &records, 0, &vec![11, 10], None);
    assert_eq!(
        contents(&items),
        vec![(false, "<1> 1@sho ".to_string()), (false, "<2> 3@a l ".to_string())]
    );
}

#[test]
fn templates_are_filled_in() {
    assert_eq!(render("[{{& content }}] ", "<1> a&b "), "[<1> a&b ] ");
    assert_eq!(render("{{ content }}", "a<b"), "a&lt;b");
    assert_eq!(render("{{& tag }}|{{& content }}", "x"), "|x");
    assert_eq!(render("no tags", "x"), "no tags");
    assert_eq!(render("{{#a}}x", "x"), "");
    assert_eq!(render("x{{/a}}", "x"), "");
    let items = vec![
        StatusItem { selected: false, content: "a".to_string() },
        StatusItem { selected: true, content: "b".to_string() },
    ];
    assert_eq!(render_items(&items, "({{& content }})", "<{{& content }}>"), vec!["(a)", "<b>"]);
}

#[test]
fn status_line_is_put_together() {
    let tags = vec!["1 ".to_string(), "2 ".to_string()];
    let clients = vec!["[a]".to_string(), "[b]".to_string()];
    assert_eq!(assemble(&tags, " :: ", &clients), "1 2  :: [a][b]\n");
    assert_eq!(assemble(&vec![], "|", &vec![]), "|\n");
}

#[test]
fn default_logger_config() {
    let c = LoggerConfig::default();
    assert_eq!(c.client_template, "[{{& content }}] ");
    assert_eq!(c.client_selected_template, "[<fc=#FFFF00>{{& content }}</fc>] ");
    assert_eq!(c.client_title_length, 8);
    assert_eq!(c.separator, " :: ");
    assert_eq!(c.tag_template, "{{& content }}");
    assert_eq!(c.tag_selected_template, "<fc=#00FF00>{{& content }}</fc> |");
    let c = c
        .client_template("a")
        .client_selected_template("b")
        .tag_template("c")
        .tag_selected_template("d")
        .separator("e")
        .client_title_length(2);
    assert_eq!(
        (c.client_template.as_str(), c.client_selected_template.as_str(), c.tag_template.as_str()),
        ("a", "b", "c")
    );
    assert_eq!((c.tag_selected_template.as_str(), c.separator, c.client_title_length), ("d", "e", 2));
}

#[test]
fn xmobar_logger_writes_the_status_line() {
    let records = vec![record(10, b'3', "editor window"), record(11, b'1', "shell")];
    let mut logger = XMobarLogger::new(LoggerConfig::default());
    let line = logger.dump(
        &Config::new(0x40),
        &workspaces(),
        &records,
        &vec![10, 11],
        b'1',
        &vec![11],
        Some(11),
    );
    assert_eq!(line, "<fc=#00FF00>1 - web</fc> |3 - code :: [<fc=#FFFF00><1> shell </fc>] \n");
    let line = logger.dump(&Config::new(0x40), &workspaces(), &records, &vec![10, 11], 0, &vec![10, 11], None);
    assert_eq!(
        line,
        "<fc=#00FF00>Overview</fc> |OverviewOverview :: [<1> 3@editor w ] [<2> 1@shell ] \n"
    );
    let mut dummy = DummyLogger::new(LoggerConfig::default());
    assert_eq!(dummy.dump(&Config::new(0x40), &workspaces(), &records, &vec![10], b'1', &vec![], None), "");
}

#[test]
fn a_failed_template_gives_the_empty_text() {
    assert_eq!(text_or_empty(Ok("[a] ".to_string())), "[a] ");
    assert_eq!(text_or_empty(Ok(String::new())), "");
    let error = mustache::compile_str("{{#a}}x").err().unwrap();
    assert_eq!(text_or_empty(Err(error)), "");
}

#[test]
fn plain_templates_are_told_from_others() {
    for plain in [
        "",
        "no tags",
        "{{content}}",
        "{{& content }}",
        "{{ content }} {{&tag_2 }}",
        "[<fc=#FFFF00>{{& content }}</fc>] ",
        "<action=`xdotool key super+{{& tag }}` button=1>{{& content }}</action>",
        "{ {x} } }} }",
        "a{",
        "{{}}",
        "{{&}}",
    ] {
        assert!(is_plain_template(plain), "{}", plain);
    }
    for other in [
        "{{.}}",
        "{{ . }}",
        "{{&.}}",
        "{{& . }}",
        "{{{.}}}",
        "{{{content}}}",
        "{{a.b}}",
        "{{#content}}x{{/content}}",
        "{{^content}}x{{/content}}",
        "{{/content}}",
        "{{> partial}}",
        "{{! comment }}",
        "{{=<% %>=}}<%.%>",
        "{{a-b}}",
        "{{content}",
        "{{content",
        "{{",
        "{{content}x}",
        "{{&&content}}",
        "x{{{",
        "{{größe}}",
        "{{ & content }}",
    ] {
        assert!(!is_plain_template(other), "{}", other);
    }
}

#[test]
fn templates_that_are_not_plain_give_the_empty_text() {
    for template in [
        "{{.}}",
        "{{ . }}",
        "{{&.}}",
        "{{{.}}}",
        "x{{#content}}{{.}}{{/content}}",
        "{{> partial}}",
        "{{=<% %>=}}<%.%>",
        "{{=<% %>=}}<%& . %>",
    ] {
        assert_eq!(render(template, "x"), "");
    }
    assert_eq!(render("{{}}", "x"), "");
    assert_eq!(render("{{ & content }}", "x"), "");
    assert_eq!(render("{ {{content}} }}", "a&b"), "{ a&amp;b }}");
    assert_eq!(render("{{&content}}{{content}}{{& content}}", "<"), "<&lt;<");
    assert_eq!(render("größe {{& content }}", "π"), "größe π");
}

#[test]
fn the_selected_piece_gets_its_own_template() {
    let plain = StatusItem { selected: false, content: "a".to_string() };
    let selected = StatusItem { selected: true, content: "b".to_string() };
    assert_eq!(template_for(&plain, "p", "s"), "p");
    assert_eq!(template_for(&selected, "p", "s"), "s");
    let items = vec![plain, selected];
    assert_eq!(render_items(&items, "({{& content }})", "<{{& content }}>"), vec!["(a)", "<b>"]);
    assert_eq!(render_items(&items, "({{& content }})", "{{.}}"), vec!["(a)", ""]);
}

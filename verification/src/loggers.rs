//! What the status bar is told: the tags in use and the clients of the
//! workspace in use, each put into a template.

use vstd::prelude::*;
use vstd::string::*;
use crate::client::{ClientL, ClientW};
use crate::config::Config;
use crate::manager::tag_in;

use crate::state::tag_of;
use crate::util::{decimal, digits, push_char, truncate, truncated};
use crate::workspace::{client_of, find_client, Workspace};

verus! {

/// `mustache::Error`: why a template could not be read or filled in.
#[verifier::external_type_specification]
#[verifier::external_body]
pub struct ExTemplateError(mustache::Error);

/// Whether the character may stand in a tag of a plain template: a
/// letter, a digit, an underscore or a blank.
pub open spec fn tag_char(c: char) -> bool {
    let n = c as u32;
    n == 0x20 || n == 0x5f || 0x30 <= n <= 0x39 || 0x41 <= n <= 0x5a || 0x61 <= n <= 0x7a
}

/// Whether the text from `from` on is the rest of a plain template;
/// `in_tag` says whether `from` lies within a tag.
pub open spec fn plain_from(s: Seq<char>, from: int, in_tag: bool) -> bool
    decreases s.len() - from,
{
    if from < 0 {
        false
    } else if from >= s.len() {
        !in_tag
    } else if in_tag {
        if tag_char(s[from]) {
            plain_from(s, from + 1, true)
        } else {
            s[from] == '}' && from + 1 < s.len() && s[from + 1] == '}' && plain_from(
                s,
                from + 2,
                false,
            )
        }
    } else if s[from] == '{' && from + 1 < s.len() && s[from + 1] == '{' {
        plain_from(
            s,
            if from + 2 < s.len() && s[from + 2] == '&' {
                from + 3
            } else {
                from + 2
            },
            true,
        )
    } else {
        plain_from(s, from + 1, false)
    }
}

/// Whether the text is a plain template: text in which every pair of
/// opening braces begins a tag that names a value and nothing else. Such
/// a tag is the two opening braces, an ampersand or none, then letters,
/// digits, underscores and blanks, then two closing braces. A plain
/// template has no sections, no partials, no comments, no tag for the
/// whole of the data, and it keeps the braces as its delimiters.
pub open spec fn plain_template(s: Seq<char>) -> bool {
    plain_from(s, 0, false)
}

fn is_tag_char(c: char) -> (b: bool)
    ensures
        b == tag_char(c),
{
    let n = c as u32;
    n == 0x20 || n == 0x5f || (0x30 <= n && n <= 0x39) || (0x41 <= n && n <= 0x5a) || (0x61 <= n
        && n <= 0x7a)
}

/// Whether the text is a plain template.
pub fn is_plain_template(template: &str) -> (b: bool)
    ensures
        b == plain_template(template@),
{
    let len = template.unicode_len();
    let mut i: usize = 0;
    let mut in_tag = false;
    while i < len
        invariant
            i <= len,
            len == template@.len(),
            plain_from(template@, i as int, in_tag) == plain_template(template@),
        decreases len - i,
    {
        let c = template.get_char(i);
        if in_tag {
            if is_tag_char(c) {
                i += 1;
            } else if c == '}' && i + 1 < len && template.get_char(i + 1) == '}' {
                i += 2;
                in_tag = false;
            } else {
                return false;
            }
        } else if c == '{' && i + 1 < len && template.get_char(i + 1) == '{' {
            if i + 2 < len && template.get_char(i + 2) == '&' {
                i += 3;
            } else {
                i += 2;
            }
            in_tag = true;
        } else {
            i += 1;
        }
    }
    !in_tag
}

/// The text that a plain template makes of a content that stands for
/// one name; nothing if the text is no template after all.
pub uninterp spec fn filled_in(template: Seq<char>, name: Seq<char>, content: Seq<char>) -> Option<Seq<char>>;

/// `mustache::compile_str` on the template,
/// `mustache::MapBuilder::new().insert_str(name, content).build()` for
/// the data, and `mustache::Template::render_data_to_string` of the
/// one on the other. For a plain template this reads no file and meets
/// no tag that it cannot fill in, so that the outcome depends on the
/// three texts alone: `filled_in` is its name.
#[verifier::external_body]
fn fill_in(template: &str, name: &str, content: &str) -> (text: Result<String, mustache::Error>)
    requires
        plain_template(template@),
    ensures
        match text {
            Ok(made) => filled_in(template@, name@, content@) == Some(made@),
            Err(_) => filled_in(template@, name@, content@) is None,
        },
{
    let data = mustache::MapBuilder::new().insert_str(name, content).build();
    mustache::compile_str(template)?.render_data_to_string(&data)
}

/// How the status line is written. A template is a plain template
/// (see `plain_template`): text with tags that name a value, of which
/// `content` stands for the piece. Any other text makes the empty text
/// of every piece.
pub struct LoggerConfig {
    /// The template of a client; the name `content` stands for the client.
    pub client_template: String,
    /// The template of the client that has the focus.
    pub client_selected_template: String,
    /// How many characters of a title are shown.
    pub client_title_length: usize,
    /// What stands between the tags and the clients.
    pub separator: &'static str,
    /// The template of a tag.
    pub tag_template: String,
    /// The template of the tag in use.
    pub tag_selected_template: String,
}

impl LoggerConfig {
    pub fn client_template(self, template: &str) -> (c: Self)
        ensures
            c == (LoggerConfig { client_template: c.client_template, ..self }),
            c.client_template@ == template@,
    {
        let mut c = self;
        c.client_template = template.to_owned();
        c
    }

    pub fn client_selected_template(self, template: &str) -> (c: Self)
        ensures
            c == (LoggerConfig { client_selected_template: c.client_selected_template, ..self }),
            c.client_selected_template@ == template@,
    {
        let mut c = self;
        c.client_selected_template = template.to_owned();
        c
    }

    pub fn client_title_length(self, len: usize) -> (c: Self)
        ensures
            c == (LoggerConfig { client_title_length: len, ..self }),
    {
        let mut c = self;
        c.client_title_length = len;
        c
    }

    pub fn separator(self, s: &'static str) -> (c: Self)
        ensures
            c == (LoggerConfig { separator: s, ..self }),
    {
        let mut c = self;
        c.separator = s;
        c
    }

    pub fn tag_template(self, template: &str) -> (c: Self)
        ensures
            c == (LoggerConfig { tag_template: c.tag_template, ..self }),
            c.tag_template@ == template@,
    {
        let mut c = self;
        c.tag_template = template.to_owned();
        c
    }

    pub fn tag_selected_template(self, template: &str) -> (c: Self)
        ensures
            c == (LoggerConfig { tag_selected_template: c.tag_selected_template, ..self }),
            c.tag_selected_template@ == template@,
    {
        let mut c = self;
        c.tag_selected_template = template.to_owned();
        c
    }
}

impl Default for LoggerConfig {
    fn default() -> (c: Self)
        ensures
            c.client_template@ == "[{{& content }}] "@,
            c.client_selected_template@ == "[<fc=#FFFF00>{{& content }}</fc>] "@,
            c.client_title_length == 8,
            c.separator@ == " :: "@,
            c.tag_template@ == "{{& content }}"@,
            c.tag_selected_template@ == "<fc=#00FF00>{{& content }}</fc> |"@,
    {
        LoggerConfig {
            client_template: String::from_str("[{{& content }}] "),
            client_selected_template: String::from_str("[<fc=#FFFF00>{{& content }}</fc>] "),
            client_title_length: 8,
            separator: " :: ",
            tag_template: String::from_str("{{& content }}"),
            tag_selected_template: String::from_str("<fc=#00FF00>{{& content }}</fc> |"),
        }
    }
}

/// One piece of the status line before it is put into its template.
pub struct StatusItem {
    /// Whether the piece stands for the tag in use or the focused client.
    pub selected: bool,
    /// What the name `content` stands for in the template.
    pub content: String,
}

/// Something that tells the status bar what the manager holds.
pub trait Logger {
    /// Whether `text` is a text that the logger may give when it is told
    /// this: `clients` are the clients of all workspaces,
    /// `current_clients` those of the workspace in use.
    spec fn tells(
        &self,
        global_config: &Config,
        workspaces: Seq<Workspace>,
        records: Seq<ClientW>,
        clients: Seq<u64>,
        current_tag: u8,
        current_clients: Seq<u64>,
        focused: Option<u64>,
        text: Seq<char>,
    ) -> bool;

    /// The text for the status bar: `clients` are the clients of all
    /// workspaces, `current_clients` those of the workspace in use.
    fn dump(
        &mut self,
        global_config: &Config,
        workspaces: &Vec<Workspace>,
        records: &ClientL,
        clients: &Vec<u64>,
        current_tag: u8,
        current_clients: &Vec<u64>,
        focused: Option<u64>,
    ) -> (text: String)
        ensures
            old(self).tells(
                global_config,
                workspaces@,
                records@,
                clients@,
                current_tag,
                current_clients@,
                focused,
                text@,
            ),
    ;
}

/// A logger that tells nobody anything.
pub struct DummyLogger;

impl DummyLogger {
    pub fn new(config: LoggerConfig) -> (logger: Self) {
        DummyLogger
    }
}

impl Logger for DummyLogger {
    /// The dummy says nothing, whatever it is told.
    open spec fn tells(
        &self,
        global_config: &Config,
        workspaces: Seq<Workspace>,
        records: Seq<ClientW>,
        clients: Seq<u64>,
        current_tag: u8,
        current_clients: Seq<u64>,
        focused: Option<u64>,
        text: Seq<char>,
    ) -> bool {
        text.len() == 0
    }

    fn dump(
        &mut self,
        global_config: &Config,
        workspaces: &Vec<Workspace>,
        records: &ClientL,
        clients: &Vec<u64>,
        current_tag: u8,
        current_clients: &Vec<u64>,
        focused: Option<u64>,
    ) -> (text: String) {
        String::new()
    }
}

/// Whether the tags stand in rising order, none of them twice.
pub open spec fn rising(tags: Seq<u8>) -> bool {
    forall|i: int, j: int| 0 <= i < j < tags.len() ==> tags[i] < tags[j]
}

/// Whether one of the clients is on the tag.
pub open spec fn tag_in_use(records: Seq<ClientW>, clients: Seq<u64>, tag: u8) -> bool {
    exists|i: int| 0 <= i < clients.len() && #[trigger] tag_of(records, clients[i]) == tag
}

/// Puts the tag at its place in a rising list, unless it is there.
pub fn insert_tag(tags: &mut Vec<u8>, tag: u8)
    requires
        rising(old(tags)@),
    ensures
        rising(final(tags)@),
        forall|t: u8| final(tags)@.contains(t) <==> old(tags)@.contains(t) || t == tag,
{
    let mut at: usize = 0;
    while at < tags.len() && tags[at] < tag
        invariant
            at <= tags@.len(),
            *tags == *old(tags),
            forall|k: int| 0 <= k < at ==> tags@[k] < tag,
        decreases tags@.len() - at,
    {
        at += 1;
    }
    if at < tags.len() && tags[at] == tag {
        assert(tags@.contains(tag));
        return ;
    }
    let ghost before = tags@;
    tags.insert(at, tag);
    proof {
        assert(before == old(tags)@);
        assert forall|t: u8| tags@.contains(t) <==> old(tags)@.contains(t) || t == tag by {
            if before.contains(t) {
                let k = choose|k: int| 0 <= k < before.len() && before[k] == t;
                if k < at {
                    assert(tags@[k] == t);
                } else {
                    assert(tags@[k + 1] == t);
                }
            }
            if t == tag {
                assert(tags@[at as int] == t);
            }
            if tags@.contains(t) {
                let k = choose|k: int| 0 <= k < tags@.len() && tags@[k] == t;
                if k < at {
                    assert(before[k] == t);
                } else if k > at {
                    assert(before[k - 1] == t);
                }
            }
        }
        assert forall|i: int, j: int| 0 <= i < j < tags@.len() implies tags@[i] < tags@[j] by {
            if i < at && j > at {
                assert(before[i] < before[j - 1]);
            } else if i > at {
                assert(before[i - 1] < before[j - 1]);
            } else if j < at {
                assert(before[i] < before[j]);
            } else if i == at {
                assert(before[j - 1] >= tag);
                assert(before[j - 1] != tag) by {
                    if j - 1 > at {
                        assert(before[at as int] < before[j - 1]);
                    }
                }
            }
        }
    }
}

/// The tags that the status line shows: the tag in use and the tags of
/// the clients, in rising order, each once.
pub fn shown_tags(records: &ClientL, clients: &Vec<u64>, current_tag: u8) -> (tags: Vec<u8>)
    ensures
        rising(tags@),
        forall|t: u8|
            tags@.contains(t) <==> t == current_tag || tag_in_use(records@, clients@, t),
{
    let mut tags: Vec<u8> = Vec::new();
    let mut i: usize = 0;
    while i < clients.len()
        invariant
            i <= clients@.len(),
            rising(tags@),
            forall|t: u8| tags@.contains(t) <==> tag_in_use(records@, clients@.take(i as int), t),
        decreases clients@.len() - i,
    {
        let tag = tag_in(records, clients[i]);
        insert_tag(&mut tags, tag);
        proof {
            let shorter = clients@.take(i as int);
            let longer = clients@.take(i + 1);
            assert forall|t: u8| tags@.contains(t) <==> tag_in_use(records@, longer, t) by {
                if tag_in_use(records@, shorter, t) {
                    let k = choose|k: int|
                        0 <= k < shorter.len() && #[trigger] tag_of(records@, shorter[k]) == t;
                    assert(tag_of(records@, longer[k]) == t);
                }
                if t == tag {
                    assert(tag_of(records@, longer[i as int]) == t);
                }
                if tag_in_use(records@, longer, t) {
                    let k = choose|k: int|
                        0 <= k < longer.len() && #[trigger] tag_of(records@, longer[k]) == t;
                    if k < i {
                        assert(tag_of(records@, shorter[k]) == t);
                    }
                }
            }
        }
        i += 1;
    }
    assert(clients@.take(clients@.len() as int) =~= clients@);
    insert_tag(&mut tags, current_tag);
    tags
}

/// The description of the first workspace of the tag, if it has one.
pub open spec fn described(workspaces: Seq<Workspace>, tag: u8) -> Option<String>
    decreases workspaces.len(),
{
    if workspaces.len() == 0 {
        None
    } else if workspaces[0].tag == tag {
        workspaces[0].description
    } else {
        described(workspaces.skip(1), tag)
    }
}

/// What stands for a tag in the status line: in the overview the word
/// "Overview"; else the tag, and behind it the description of its
/// workspace if it has one.
pub open spec fn tag_content(workspaces: Seq<Workspace>, tag: u8, current_tag: u8) -> Seq<char> {
    if current_tag == 0 {
        "Overview"@
    } else {
        match described(workspaces, tag) {
            Some(d) => seq![tag as char] + " - "@ + d@,
            None => seq![tag as char],
        }
    }
}

/// The title of the client with the window; empty if there is no such client.
pub open spec fn title_in(records: Seq<ClientW>, window: u64) -> Seq<char> {
    match client_of(records, window) {
        Some(c) => c.0.title@,
        None => Seq::empty(),
    }
}

/// What stands for a client in the status line: its rank, in the
/// overview its tag, and the beginning of its title.
pub open spec fn client_content(
    records: Seq<ClientW>,
    window: u64,
    rank: nat,
    current_tag: u8,
    title_length: nat,
) -> Seq<char> {
    "<"@ + digits(rank) + "> "@ + (if current_tag == 0 {
        seq![tag_of(records, window) as char] + "@"@
    } else {
        Seq::empty()
    }) + truncated(title_in(records, window), title_length) + " "@
}

/// The description of the workspace of the tag.
fn description_for<'a>(workspaces: &'a Vec<Workspace>, tag: u8) -> (d: Option<&'a String>)
    ensures
        match d {
            Some(text) => described(workspaces@, tag) == Some(*text),
            None => described(workspaces@, tag) is None,
        },
{
    let mut i: usize = 0;
    assert(workspaces@.skip(0) =~= workspaces@);
    while i < workspaces.len()
        invariant
            i <= workspaces@.len(),
            described(workspaces@, tag) == described(workspaces@.skip(i as int), tag),
        decreases workspaces@.len() - i,
    {
        let ghost rest = workspaces@.skip(i as int);
        assert(rest[0] == workspaces@[i as int]);
        assert(rest.skip(1) =~= workspaces@.skip(i + 1));
        if workspaces[i].tag == tag {
            return workspaces[i].get_description();
        }
        i += 1;
    }
    None
}

/// The pieces of the status line that stand for the tags.
pub fn tag_items(workspaces: &Vec<Workspace>, tags: &Vec<u8>, current_tag: u8) -> (items: Vec<
    StatusItem,
>)
    ensures
        items@.len() == tags@.len(),
        forall|i: int|
            0 <= i < tags@.len() ==> (#[trigger] items@[i]).selected == (tags@[i] == current_tag)
                && items@[i].content@ == tag_content(workspaces@, tags@[i], current_tag),
{
    let mut items: Vec<StatusItem> = Vec::new();
    let mut i: usize = 0;
    while i < tags.len()
        invariant
            i <= tags@.len(),
            items@.len() == i,
            forall|k: int|
                0 <= k < i ==> (#[trigger] items@[k]).selected == (tags@[k] == current_tag)
                    && items@[k].content@ == tag_content(workspaces@, tags@[k], current_tag),
        decreases tags@.len() - i,
    {
        let tag = tags[i];
        let content = if current_tag == 0 {
            String::from_str("Overview")
        } else {
            let mut text = String::new();
            push_char(&mut text, tag as char);
            match description_for(workspaces, tag) {
                Some(description) => {
                    text.append(" - ");
                    text.append(description.as_str());
                    assert(text@ =~= seq![tag as char] + " - "@ + description@);
                },
                None => {
                    assert(text@ =~= seq![tag as char]);
                },
            }
            text
        };
        items.push(StatusItem { selected: tag == current_tag, content });
        i += 1;
    }
    items
}

/// The pieces of the status line that stand for the clients of the workspace in use.
pub fn client_items(
    config: &LoggerConfig,
    records: &ClientL,
    current_tag: u8,
    current_clients: &Vec<u64>,
    focused: Option<u64>,
) -> (items: Vec<StatusItem>)
    ensures
        items@.len() == current_clients@.len(),
        forall|i: int|
            0 <= i < items@.len() ==> (#[trigger] items@[i]).selected == (focused == Some(
                current_clients@[i],
            )) && items@[i].content@ == client_content(
                records@,
                current_clients@[i],
                (i + 1) as nat,
                current_tag,
                config.client_title_length as nat,
            ),
{
    let mut items: Vec<StatusItem> = Vec::new();
    let mut i: usize = 0;
    while i < current_clients.len()
        invariant
            i <= current_clients@.len(),
            items@.len() == i,
            forall|k: int|
                0 <= k < i ==> (#[trigger] items@[k]).selected == (focused == Some(
                    current_clients@[k],
                )) && items@[k].content@ == client_content(
                    records@,
                    current_clients@[k],
                    (k + 1) as nat,
                    current_tag,
                    config.client_title_length as nat,
                ),
        decreases current_clients@.len() - i,
    {
        let window = current_clients[i];
        let selected = match focused {
            Some(f) => f == window,
            None => false,
        };
        let mut text = String::from_str("<");
        let rank = decimal((i + 1) as u64);
        text.append(rank.as_str());
        text.append("> ");
        if current_tag == 0 {
            push_char(&mut text, tag_in(records, window) as char);
            text.append("@");
        }
        match find_client(records, window) {
            Some(at) => {
                let title = records[at].get_title();
                text.append(truncate(title.as_str(), config.client_title_length));
            },
            None => {},
        }
        text.append(" ");
        assert(text@ =~= client_content(
            records@,
            window,
            (i + 1) as nat,
            current_tag,
            config.client_title_length as nat,
        ));
        items.push(StatusItem { selected, content: text });
        i += 1;
    }
    items
}

/// The texts one after the other.
pub open spec fn joined(texts: Seq<Seq<char>>) -> Seq<char>
    decreases texts.len(),
{
    if texts.len() == 0 {
        Seq::empty()
    } else {
        joined(texts.drop_last()) + texts.last()
    }
}

/// The status line: the texts of the tags, the separator, the texts of
/// the clients, and the end of the line.
pub open spec fn status_line(tags: Seq<Seq<char>>, separator: Seq<char>, clients: Seq<Seq<char>>) -> Seq<
    char,
> {
    joined(tags) + separator + joined(clients) + seq!['\n']
}

pub open spec fn views(texts: Seq<String>) -> Seq<Seq<char>> {
    texts.map_values(|t: String| t@)
}

fn append_all(line: &mut String, texts: &Vec<String>)
    ensures
        final(line)@ == old(line)@ + joined(views(texts@)),
{
    let mut i: usize = 0;
    assert(views(texts@).take(0) =~= Seq::<Seq<char>>::empty());
    assert(line@ + Seq::<char>::empty() =~= line@);
    while i < texts.len()
        invariant
            i <= texts@.len(),
            line@ == old(line)@ + joined(views(texts@).take(i as int)),
        decreases texts@.len() - i,
    {
        assert(views(texts@).take(i + 1).drop_last() =~= views(texts@).take(i as int));
        let ghost so_far = joined(views(texts@).take(i as int));
        line.append(texts[i].as_str());
        assert(line@ =~= old(line)@ + (so_far + texts@[i as int]@));
        i += 1;
    }
    assert(views(texts@).take(texts@.len() as int) =~= views(texts@));
}

/// Puts the status line together from the texts of its pieces.
pub fn assemble(tags: &Vec<String>, separator: &str, clients: &Vec<String>) -> (line: String)
    ensures
        line@ == status_line(views(tags@), separator@, views(clients@)),
{
    let mut line = String::new();
    append_all(&mut line, tags);
    line.append(separator);
    append_all(&mut line, clients);
    push_char(&mut line, '\n');
    assert(line@ =~= status_line(views(tags@), separator@, views(clients@)));
    line
}

/// The text that came of filling in a template; the empty text if
/// nothing came of it.
pub fn text_or_empty(outcome: Result<String, mustache::Error>) -> (text: String)
    ensures
        match outcome {
            Ok(made) => text == made,
            Err(_) => text@.len() == 0,
        },
{
    match outcome {
        Ok(made) => made,
        Err(_) => String::new(),
    }
}

/// The text that a template makes of a content, for which the name
/// `content` stands in it: the empty text if the template is not plain
/// or is no template.
pub open spec fn rendered(template: Seq<char>, content: Seq<char>) -> Seq<char> {
    if plain_template(template) {
        match filled_in(template, "content"@, content) {
            Some(made) => made,
            None => Seq::empty(),
        }
    } else {
        Seq::empty()
    }
}

/// The text that a template makes of a content; the empty text if the
/// template is not plain, is no template or cannot be filled in.
pub fn render(template: &str, content: &str) -> (text: String)
    ensures
        text@ == rendered(template@, content@),
{
    if is_plain_template(template) {
        text_or_empty(fill_in(template, "content", content))
    } else {
        String::new()
    }
}

/// The template for a piece: the one for selected pieces if it is selected, else the plain one.
pub fn template_for<'a>(item: &StatusItem, plain: &'a str, selected: &'a str) -> (template: &'a str)
    ensures
        template@ == if item.selected {
            selected@
        } else {
            plain@
        },
{
    if item.selected {
        selected
    } else {
        plain
    }
}

/// The texts that the pieces make, each in its template.
pub open spec fn rendered_items(items: Seq<StatusItem>, plain: Seq<char>, selected: Seq<char>) -> Seq<
    Seq<char>,
> {
    Seq::new(
        items.len(),
        |i: int|
            rendered(
                if items[i].selected {
                    selected
                } else {
                    plain
                },
                items[i].content@,
            ),
    )
}

/// Each piece put into its template: the template for the selected
/// piece if it is selected, else the plain one.
pub fn render_items(items: &Vec<StatusItem>, plain: &str, selected: &str) -> (texts: Vec<String>)
    ensures
        views(texts@) == rendered_items(items@, plain@, selected@),
{
    let mut texts: Vec<String> = Vec::new();
    let mut i: usize = 0;
    while i < items.len()
        invariant
            i <= items@.len(),
            texts@.len() == i,
            forall|k: int|
                0 <= k < i ==> (#[trigger] texts@[k])@ == rendered_items(items@, plain@, selected@)[k],
        decreases items@.len() - i,
    {
        let template = template_for(&items[i], plain, selected);
        texts.push(render(template, items[i].content.as_str()));
        i += 1;
    }
    assert(views(texts@) =~= rendered_items(items@, plain@, selected@));
    texts
}

/// A logger that writes a line for the status bar.
pub struct XMobarLogger {
    pub config: LoggerConfig,
}

impl XMobarLogger {
    pub fn new(config: LoggerConfig) -> (logger: Self)
        ensures
            logger.config == config,
    {
        XMobarLogger { config }
    }
}

/// The texts of the tags that are shown: the tag in use in the template
/// for the selected tag, every other in the plain one.
pub open spec fn tag_texts(
    config: LoggerConfig,
    workspaces: Seq<Workspace>,
    tags: Seq<u8>,
    current_tag: u8,
) -> Seq<Seq<char>> {
    Seq::new(
        tags.len(),
        |i: int|
            rendered(
                if tags[i] == current_tag {
                    config.tag_selected_template@
                } else {
                    config.tag_template@
                },
                tag_content(workspaces, tags[i], current_tag),
            ),
    )
}

/// The texts of the clients of the workspace in use: the focused
/// client in the template for the selected client, every other in the
/// plain one.
pub open spec fn client_texts(
    config: LoggerConfig,
    records: Seq<ClientW>,
    current_tag: u8,
    current_clients: Seq<u64>,
    focused: Option<u64>,
) -> Seq<Seq<char>> {
    Seq::new(
        current_clients.len(),
        |i: int|
            rendered(
                if focused == Some(current_clients[i]) {
                    config.client_selected_template@
                } else {
                    config.client_template@
                },
                client_content(
                    records,
                    current_clients[i],
                    (i + 1) as nat,
                    current_tag,
                    config.client_title_length as nat,
                ),
            ),
    )
}

impl Logger for XMobarLogger {
    /// The line is the texts of the tags that are shown, the separator,
    /// the texts of the clients of the workspace in use, and the end of
    /// the line. The tags that are shown are the tag in use and the tags
    /// of the clients, each once, in rising order.
    open spec fn tells(
        &self,
        global_config: &Config,
        workspaces: Seq<Workspace>,
        records: Seq<ClientW>,
        clients: Seq<u64>,
        current_tag: u8,
        current_clients: Seq<u64>,
        focused: Option<u64>,
        text: Seq<char>,
    ) -> bool {
        exists|tags: Seq<u8>|
            #![trigger rising(tags)]
            {
                &&& rising(tags)
                &&& forall|t: u8|
                    tags.contains(t) <==> t == current_tag || tag_in_use(records, clients, t)
                &&& text == status_line(
                    tag_texts(self.config, workspaces, tags, current_tag),
                    self.config.separator@,
                    client_texts(self.config, records, current_tag, current_clients, focused),
                )
            }
    }

    fn dump(
        &mut self,
        global_config: &Config,
        workspaces: &Vec<Workspace>,
        records: &ClientL,
        clients: &Vec<u64>,
        current_tag: u8,
        current_clients: &Vec<u64>,
        focused: Option<u64>,
    ) -> (line: String)
        ensures
            *final(self) == *old(self),
    {
        let shown = shown_tags(records, clients, current_tag);
        let tags = tag_items(workspaces, &shown, current_tag);
        let tag_lines = render_items(
            &tags,
            self.config.tag_template.as_str(),
            self.config.tag_selected_template.as_str(),
        );
        let items = client_items(&self.config, records, current_tag, current_clients, focused);
        let client_lines = render_items(
            &items,
            self.config.client_template.as_str(),
            self.config.client_selected_template.as_str(),
        );
        let line = assemble(&tag_lines, self.config.separator, &client_lines);
        proof {
            assert(views(tag_lines@) =~= tag_texts(self.config, workspaces@, shown@, current_tag));
            assert(views(client_lines@) =~= client_texts(
                self.config,
                records@,
                current_tag,
                current_clients@,
                focused,
            ));
            assert(rising(shown@));
        }
        line
    }
}

} // verus!

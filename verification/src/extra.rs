//! What the manager asks the user, and what it does with the answers.

use vstd::prelude::*;
use vstd::string::*;
use crate::client::{lookup, ClientW};
use crate::display::Request;
use crate::manager::WindowManager;
use crate::state::State;
use crate::util::{trim, trimmed};
use crate::ring::position;
use crate::workspace::{client_of, find_client, windows, Workspace};

verus! {

/// A question for the user: the arguments of the menu, and the lines to choose from.
pub struct Question {
    pub args: Vec<String>,
    pub selections: Vec<String>,
}

/// The line of the menu that stands for a client: the word that the user
/// has attached to it, its class and its title.
pub open spec fn menu_line(records: Seq<ClientW>, window: u64) -> Seq<char> {
    match client_of(records, window) {
        Some(c) => "[("@ + (match lookup(c.0.extras@, "user_tag"@) {
            Some(word) => word,
            None => Seq::empty(),
        }) + ") "@ + c.0.class@ + "] "@ + c.0.title@,
        None => "[() ] "@,
    }
}

/// The index of the first line that is the answer, white space around
/// either left aside.
pub open spec fn line_chosen(lines: Seq<Seq<char>>, reply: Seq<char>) -> Option<int>
    decreases lines.len(),
{
    if lines.len() == 0 {
        None
    } else if trimmed(lines[0]) == trimmed(reply) {
        Some(0)
    } else {
        match line_chosen(lines.skip(1), reply) {
            Some(i) => Some(i + 1),
            None => None,
        }
    }
}

pub proof fn lemma_line_chosen(lines: Seq<Seq<char>>, reply: Seq<char>, upto: int)
    requires
        0 <= upto <= lines.len(),
        forall|j: int| 0 <= j < upto ==> trimmed(lines[j]) != trimmed(reply),
    ensures
        upto < lines.len() && trimmed(lines[upto]) == trimmed(reply) ==> line_chosen(lines, reply)
            == Some(upto),
        upto == lines.len() ==> line_chosen(lines, reply) is None,
    decreases upto,
{
    if upto > 0 {
        let rest = lines.skip(1);
        assert forall|j: int| 0 <= j < upto - 1 implies trimmed(rest[j]) != trimmed(reply) by {
            assert(rest[j] == lines[j + 1]);
        }
        if upto < lines.len() {
            assert(rest[upto - 1] == lines[upto]);
        }
        lemma_line_chosen(rest, reply, upto - 1);
    }
}

fn text(s: &str) -> (t: String)
    ensures
        t@ == s@,
{
    String::from_str(s)
}

/// The line of the menu that stands for a client.
pub fn line_of(records: &Vec<ClientW>, window: u64) -> (line: String)
    ensures
        line@ == menu_line(records@, window),
{
    match find_client(records, window) {
        Some(i) => {
            let mut line = String::from_str("[(");
            match records[i].get_extra("user_tag") {
                Some(word) => {
                    line.append(word.as_str());
                },
                None => {},
            }
            line.append(") ");
            let class = records[i].get_class();
            line.append(class.as_str());
            line.append("] ");
            let title = records[i].get_title();
            line.append(title.as_str());
            assert(line@ =~= menu_line(records@, window));
            line
        },
        None => String::from_str("[() ] "),
    }
}

/// The lines of the menu for all clients, in their order.
pub fn lines_of(records: &Vec<ClientW>, clients: &Vec<u64>) -> (lines: Vec<String>)
    ensures
        lines@.len() == clients@.len(),
        forall|i: int| 0 <= i < lines@.len() ==> (#[trigger] lines@[i])@ == menu_line(
            records@,
            clients@[i],
        ),
{
    let mut lines: Vec<String> = Vec::new();
    let mut i: usize = 0;
    while i < clients.len()
        invariant
            i <= clients@.len(),
            lines@.len() == i,
            forall|k: int| 0 <= k < i ==> (#[trigger] lines@[k])@ == menu_line(
                records@,
                clients@[k],
            ),
        decreases clients@.len() - i,
    {
        lines.push(line_of(records, clients[i]));
        i += 1;
    }
    lines
}

/// The question for a word to attach to the focused client; none if no
/// client has the focus.
pub fn window_user_tag_question(w: &WindowManager) -> (question: Option<Question>)
    requires
        w.wf(),
    ensures
        match w.view(Seq::empty()).focused() {
            Some(window) => match client_of(w.clients@, window) {
                Some(c) => question is Some && question.unwrap().selections@.len() == 0
                    && question.unwrap().args@.len() == 2 && question.unwrap().args@[0]@ == "-p"@
                    && question.unwrap().args@[1]@ == "add uesr tag to "@ + c.0.class@ + ": "@,
                None => question is None,
            },
            None => question is None,
        },
{
    match w.current_focused() {
        Some(window) => match find_client(&w.clients, window) {
            Some(i) => {
                let mut hint = String::from_str("add uesr tag to ");
                let class = w.clients[i].get_class();
                hint.append(class.as_str());
                hint.append(": ");
                let mut args: Vec<String> = Vec::new();
                args.push(String::from_str("-p"));
                args.push(hint);
                Some(Question { args, selections: Vec::new() })
            },
            None => None,
        },
        None => None,
    }
}

/// Attaches the answer of the user to the focused client as its word,
/// unless the answer is empty.
pub fn add_window_user_tag_dmenu(w: &mut WindowManager, reply: &str)
    requires
        old(w).wf(),
    ensures
        final(w).wf(),
        final(w).same_setup(old(w)),
        final(w).workspaces@ == old(w).workspaces@,
        match old(w).view(Seq::empty()).focused() {
            Some(window) => match position(windows(old(w).clients@), window) {
                Some(i) => if trimmed(reply@).len() > 0 {
                    &&& final(w).clients@ == old(w).clients@.update(
                        i,
                        old(w).clients@[i].with_extras(final(w).clients@[i].0.extras),
                    )
                    &&& lookup(final(w).clients@[i].0.extras@, "user_tag"@) == Some(trimmed(reply@))
                    &&& forall|other: Seq<char>|
                        other != "user_tag"@ ==> lookup(final(w).clients@[i].0.extras@, other)
                            == lookup(old(w).clients@[i].0.extras@, other)
                } else {
                    final(w).clients@ == old(w).clients@
                },
                None => final(w).clients@ == old(w).clients@,
            },
            None => final(w).clients@ == old(w).clients@,
        },
{
    if let Some(window) = w.current_focused() {
        if let Some(i) = find_client(&w.clients, window) {
            let word = trim(reply);
            if word.unicode_len() > 0 {
                w.clients[i].put_extra(String::from_str("user_tag"), String::from_str(word));
            }
        }
    }
}

/// The question for a description of the workspace in use.
pub fn workspace_user_tag_question() -> (question: Question)
    ensures
        question.selections@.len() == 0,
        question.args@.len() == 2,
        question.args@[0]@ == "-p"@,
        question.args@[1]@ == "tag: "@,
{
    let mut args: Vec<String> = Vec::new();
    args.push(String::from_str("-p"));
    args.push(String::from_str("tag: "));
    Question { args, selections: Vec::new() }
}

/// Makes the answer of the user the description of the workspace in
/// use, unless the answer is empty.
pub fn add_workspace_user_tag_dmenu(w: &mut WindowManager, reply: &str)
    requires
        old(w).wf(),
    ensures
        final(w).wf(),
        final(w).same_setup(old(w)),
        final(w).clients@ == old(w).clients@,
        if trimmed(reply@).len() > 0 {
            let at = old(w).view(Seq::empty()).current();
            &&& final(w).workspaces@ == old(w).workspaces@.update(
                at,
                Workspace { description: final(w).workspaces@[at].description, ..old(w).workspaces@[at] },
            )
            &&& final(w).workspaces@[at].description is Some
            &&& final(w).workspaces@[at].description.unwrap()@ == trimmed(reply@)
        } else {
            final(w).workspaces@ == old(w).workspaces@
        },
{
    let word = trim(reply);
    if word.unicode_len() > 0 {
        let at = w.current_index();
        w.workspaces[at].set_description(String::from_str(word));
        proof {
            let s = old(w).view(Seq::empty());
            let t = w.view(Seq::empty());
            assert(t.frames =~= s.frames);
            assert(t.rings.len() == s.rings.len());
            assert(t.descriptions.len() == s.descriptions.len());
        }
    }
}

/// How the menu of the clients looks.
pub open spec fn window_menu_args() -> Seq<Seq<char>> {
    seq![
        "-p"@,
        "window"@,
        "-i"@,
        "-l"@,
        "7"@,
        "-sb"@,
        "#000000"@,
        "-sf"@,
        "#00ff00"@,
        "-nb"@,
        "#000000"@,
        "-nf"@,
        "#dddddd"@,
        "-fn"@,
        "WenQuanYi Micro Hei Mono-12"@,
    ]
}

/// The question which client to go to: a line for each client.
pub fn select_window_question(w: &WindowManager) -> (question: Question)
    ensures
        question.selections@.len() == w.view(Seq::empty()).all_clients().len(),
        forall|i: int|
            0 <= i < question.selections@.len() ==> (#[trigger] question.selections@[i])@
                == menu_line(w.clients@, w.view(Seq::empty()).all_clients()[i]),
        question.args@.map_values(|a: String| a@) == window_menu_args(),
{
    let clients = w.all_clients();
    let selections = lines_of(&w.clients, &clients);
    let mut args: Vec<String> = Vec::new();
    args.push(text("-p"));
    args.push(text("window"));
    args.push(text("-i"));
    args.push(text("-l"));
    args.push(text("7"));
    args.push(text("-sb"));
    args.push(text("#000000"));
    args.push(text("-sf"));
    args.push(text("#00ff00"));
    args.push(text("-nb"));
    args.push(text("#000000"));
    args.push(text("-nf"));
    args.push(text("#dddddd"));
    args.push(text("-fn"));
    args.push(text("WenQuanYi Micro Hei Mono-12"));
    assert(args@.map_values(|a: String| a@) =~= window_menu_args());
    Question { args, selections }
}

/// The lines of the menu for all clients.
pub open spec fn menu_lines(s: State) -> Seq<Seq<char>> {
    Seq::new(s.all_clients().len(), |i: int| menu_line(s.clients, s.all_clients()[i]))
}

/// Goes to the client whose line the user has chosen, if there is one.
pub fn select_window_dmenu(w: &mut WindowManager, reply: &str, out: &mut Vec<Request>)
    requires
        old(w).wf(),
    ensures
        final(w).wf(),
        final(w).view(final(out)@) == match line_chosen(
            menu_lines(old(w).view(old(out)@)),
            reply@,
        ) {
            Some(i) => {
                let client = old(w).view(old(out)@).all_clients()[i];
                match client_of(old(w).clients@, client) {
                    Some(c) => old(w).view(old(out)@).tag_selected(c.0.tag).focus_set(client),
                    None => old(w).view(old(out)@),
                }
            },
            None => old(w).view(old(out)@),
        },
{
    let clients = w.all_clients();
    let lines = lines_of(&w.clients, &clients);
    let wanted = String::from_str(trim(reply));
    let ghost all = menu_lines(w.view(out@));
    let mut i: usize = 0;
    while i < lines.len()
        invariant
            i <= lines@.len(),
            *w == *old(w),
            *out == *old(out),
            w.wf(),
            all == menu_lines(w.view(out@)),
            clients@ == w.view(out@).all_clients(),
            lines@.len() == clients@.len(),
            all.len() == lines@.len(),
            forall|k: int| 0 <= k < lines@.len() ==> (#[trigger] lines@[k])@ == all[k],
            wanted@ == trimmed(reply@),
            forall|j: int| 0 <= j < i ==> trimmed(all[j]) != trimmed(reply@),
        decreases lines@.len() - i,
    {
        let line = String::from_str(trim(lines[i].as_str()));
        if line == wanted {
            proof {
                assert(trimmed(all[i as int]) == trimmed(reply@));
                lemma_line_chosen(all, reply@, i as int);
            }
            let client = clients[i];
            match find_client(&w.clients, client) {
                Some(at) => {
                    let tag = w.clients[at].tag();
                    w.select_tag(tag, out);
                    w.set_focus(client, out);
                },
                None => {},
            }
            return ;
        }
        i += 1;
    }
    proof {
        lemma_line_chosen(all, reply@, i as int);
    }
}

} // verus!

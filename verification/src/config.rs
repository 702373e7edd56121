//! What the user configures: keys, rules, tags, layouts and sizes.

use vstd::prelude::*;
use vstd::string::*;
use crate::layout::Layout;
use crate::util::SHIFT_MASK;

verus! {

pub const FOCUSED_BORDER_COLOR: &'static str = "RGBi:0.0/1.0/1.0";

pub const NORMAL_BORDER_COLOR: &'static str = "RGBi:0.0/0.3/0.3";

pub const BORDER_WIDTH: i32 = 3;

pub const OVERVIEW_INSET: i32 = 15;

pub const BAR_HEIGHT: i32 = 15;

pub const WINDOW_MOVE_DELTA: i32 = 15;

pub const WINDOW_EXPAND_DELTA: i32 = 10;

/// The tag of the workspace that shows every client at once. No client
/// ever belongs to it.
pub const TAG_OVERVIEW: u8 = 0;

/// Largest border width, bar height and overview inset that a layout
/// works with: the largest extent that the window protocol can name.
pub const CONFIG_LIMIT: i32 = 0xFFFF;

/// The symbols of the keys that a configuration starts with.
pub const KEY_RETURN: u32 = 0xFF0D;

pub const KEY_LEFT: u32 = 0xFF51;

pub const KEY_UP: u32 = 0xFF52;

pub const KEY_RIGHT: u32 = 0xFF53;

pub const KEY_DOWN: u32 = 0xFF54;

pub const KEY_F2: u32 = 0xFFBF;

pub const KEY_F4: u32 = 0xFFC1;

pub const KEY_E: u32 = 0x65;

pub const KEY_J: u32 = 0x6a;

pub const KEY_K: u32 = 0x6b;

pub const KEY_M: u32 = 0x6d;

pub const KEY_Q: u32 = 0x71;

/// A program to start, with its arguments.
pub struct Program {
    pub command: String,
    pub args: Vec<String>,
}

/// What a key makes the manager do.
pub enum WmAction {
    /// End the manager.
    Exit,
    /// Move the focus around the ring: forward if the number is positive, else backward.
    ShiftFocus(i32),
    KillClient,
    ToggleMaximize,
    ToggleFloating,
    /// Move the focused floating client by this much.
    ShiftWindow(i32, i32),
    ExpandWidth(i32),
    ExpandHeight(i32),
    SelectTag(u8),
    /// Take the focused client to the tag.
    AddTag(u8),
    /// On a tag: the focused client moves to the head of the ring. In the
    /// overview: the manager goes to the focused client on its own tag.
    Promote,
    /// Focus the client with this index among those of the workspace; the last one for `None`.
    SetFocusIndex(Option<usize>),
    ToggleBack,
    Spawn(Program),
    /// Ask the user for a word to attach to the focused client.
    AskWindowTag,
    /// Ask the user for a description of the workspace.
    AskWorkspaceTag,
    /// Let the user pick a client from a list of all of them.
    AskWindow,
}

/// A key: the modifiers, the key symbol, and what it does.
pub type KeyBinding = (u32, u32, WmAction);

/// What a rule asks of a client.
pub enum ClientPredicate {
    /// The class of the window is this one.
    ClassIs(String),
    /// The window is a dialog.
    IsDialog,
}

/// One thing that a rule does to a client.
#[derive(Clone, Copy, Debug, PartialEq, Eq, Structural)]
pub enum ClientChange {
    Floating(bool),
    Sticky(bool),
}

/// What a rule does to a client that it matches: the changes, in order.
pub type ClientAction = Vec<ClientChange>;

pub type StartAction = Program;

pub struct Config {
    pub mod_key: u32,
    pub add_keys: Vec<KeyBinding>,
    pub bar_height: i32,
    pub border_width: i32,
    pub focused_border_color: &'static str,
    pub keys: Vec<KeyBinding>,
    pub normal_border_color: &'static str,
    pub overview_inset: i32,
    pub rules: Vec<(ClientPredicate, ClientAction)>,
    pub start_programs: Vec<StartAction>,
    pub tags: Vec<u8>,
    pub tag_default: u8,
    pub tag_description: Vec<(u8, String)>,
    pub tag_keys: Vec<KeyBinding>,
    pub tag_layout: Vec<(u8, Layout)>,
    pub window_expand_delta: i32,
    pub window_move_delta: i32,
}

/// The description of the first entry for the tag.
pub open spec fn description_of(entries: Seq<(u8, String)>, tag: u8) -> Option<String>
    decreases entries.len(),
{
    if entries.len() == 0 {
        None
    } else if entries[0].0 == tag {
        Some(entries[0].1)
    } else {
        description_of(entries.skip(1), tag)
    }
}

/// The keys that a configuration starts with.
pub open spec fn default_keys(mod_mask: u32) -> Seq<KeyBinding> {
    seq![
        (mod_mask, KEY_Q, WmAction::Exit),
        (mod_mask, KEY_J, WmAction::ShiftFocus(1)),
        (mod_mask, KEY_K, WmAction::ShiftFocus(-1i32)),
        (mod_mask, KEY_F4, WmAction::KillClient),
        (mod_mask, KEY_M, WmAction::ToggleMaximize),
        (mod_mask, KEY_E, WmAction::ToggleFloating),
        (mod_mask, KEY_LEFT, WmAction::ShiftWindow(-15i32, 0)),
        (mod_mask, KEY_RIGHT, WmAction::ShiftWindow(15, 0)),
        (mod_mask, KEY_UP, WmAction::ShiftWindow(0, -15i32)),
        (mod_mask, KEY_DOWN, WmAction::ShiftWindow(0, 15)),
        (mod_mask | SHIFT_MASK, KEY_UP, WmAction::ExpandHeight(-10i32)),
        (mod_mask | SHIFT_MASK, KEY_DOWN, WmAction::ExpandHeight(10)),
        (mod_mask | SHIFT_MASK, KEY_RIGHT, WmAction::ExpandWidth(10)),
        (mod_mask | SHIFT_MASK, KEY_LEFT, WmAction::ExpandWidth(-10i32)),
        (mod_mask, KEY_F2, WmAction::SelectTag(TAG_OVERVIEW)),
        (mod_mask, KEY_RETURN, WmAction::Promote),
    ]
}

/// The tags that a configuration starts with: the digits from 1 to 9, then 0.
pub open spec fn default_tags() -> Seq<u8> {
    seq![49u8, 50u8, 51u8, 52u8, 53u8, 54u8, 55u8, 56u8, 57u8, 48u8]
}

/// The keys of the tags: for each tag its own key with `mod_mask` goes to
/// the tag; after these, for each tag the same key with `move_mask` as
/// well takes the focused client there.
pub open spec fn tag_bindings(mod_mask: u32, move_mask: u32, tags: Seq<u8>) -> Seq<KeyBinding> {
    Seq::new(
        2 * tags.len(),
        |i: int|
            if i < tags.len() {
                (mod_mask, tags[i] as u32, WmAction::SelectTag(tags[i]))
            } else {
                (mod_mask | move_mask, tags[i - tags.len()] as u32, WmAction::AddTag(
                    tags[i - tags.len()],
                ))
            },
    )
}

/// The keys of the tags, and the tags themselves.
pub fn define_tags(mod_mask: u32, move_mask: u32, tags: &Vec<u8>) -> (defined: (
    Vec<KeyBinding>,
    Vec<u8>,
))
    requires
        2 * tags@.len() <= usize::MAX,
    ensures
        defined.0@ == tag_bindings(mod_mask, move_mask, tags@),
        defined.1@ == tags@,
{
    let mut keys: Vec<KeyBinding> = Vec::new();
    let mut names: Vec<u8> = Vec::new();
    let mut i: usize = 0;
    while i < tags.len()
        invariant
            i <= tags@.len(),
            keys@.len() == i,
            names@ == tags@.take(i as int),
            forall|j: int|
                0 <= j < i ==> keys@[j] == (mod_mask, tags@[j] as u32, WmAction::SelectTag(tags@[j])),
        decreases tags@.len() - i,
    {
        keys.push((mod_mask, tags[i] as u32, WmAction::SelectTag(tags[i])));
        names.push(tags[i]);
        assert(names@ =~= tags@.take(i + 1));
        i += 1;
    }
    assert(tags@.take(tags@.len() as int) =~= tags@);
    let mut k: usize = 0;
    while k < tags.len()
        invariant
            k <= tags@.len(),
            keys@.len() == tags@.len() + k,
            forall|j: int|
                0 <= j < tags@.len() ==> keys@[j] == (
                    mod_mask,
                    tags@[j] as u32,
                    WmAction::SelectTag(tags@[j]),
                ),
            forall|j: int|
                0 <= j < k ==> keys@[tags@.len() + j] == (
                    mod_mask | move_mask,
                    tags@[j] as u32,
                    WmAction::AddTag(tags@[j]),
                ),
        decreases tags@.len() - k,
    {
        keys.push((mod_mask | move_mask, tags[k] as u32, WmAction::AddTag(tags[k])));
        k += 1;
    }
    assert(keys@ =~= tag_bindings(mod_mask, move_mask, tags@)) by {
        assert forall|j: int| 0 <= j < keys@.len() implies keys@[j] == tag_bindings(
            mod_mask,
            move_mask,
            tags@,
        )[j] by {
            if j >= tags@.len() {
                assert(keys@[tags@.len() + (j - tags@.len())] == keys@[j]);
            }
        }
    }
    (keys, names)
}

impl Config {
    /// The configuration that every other one starts from.
    pub open spec fn is_default(&self, mod_mask: u32) -> bool {
        &&& self.mod_key == mod_mask
        &&& self.add_keys@.len() == 0
        &&& self.bar_height == BAR_HEIGHT
        &&& self.border_width == BORDER_WIDTH
        &&& self.focused_border_color@ == FOCUSED_BORDER_COLOR@
        &&& self.normal_border_color@ == NORMAL_BORDER_COLOR@
        &&& self.keys@ == default_keys(mod_mask)
        &&& self.overview_inset == OVERVIEW_INSET
        &&& self.rules@.len() == 0
        &&& self.start_programs@.len() == 0
        &&& self.tag_default == 49
        &&& self.tags@ == default_tags()
        &&& self.tag_description@.len() == 0
        &&& self.tag_keys@ == tag_bindings(mod_mask, SHIFT_MASK, default_tags())
        &&& self.tag_layout@.len() == 0
        &&& self.window_expand_delta == WINDOW_EXPAND_DELTA
        &&& self.window_move_delta == WINDOW_MOVE_DELTA
    }

    pub fn new(mod_mask: u32) -> (c: Config)
        ensures
            c.is_default(mod_mask),
            c.geometry_ok(),
    {
        let mut keys: Vec<KeyBinding> = Vec::new();
        keys.push((mod_mask, KEY_Q, WmAction::Exit));
        keys.push((mod_mask, KEY_J, WmAction::ShiftFocus(1)));
        keys.push((mod_mask, KEY_K, WmAction::ShiftFocus(-1i32)));
        keys.push((mod_mask, KEY_F4, WmAction::KillClient));
        keys.push((mod_mask, KEY_M, WmAction::ToggleMaximize));
        keys.push((mod_mask, KEY_E, WmAction::ToggleFloating));
        keys.push((mod_mask, KEY_LEFT, WmAction::ShiftWindow(-WINDOW_MOVE_DELTA, 0)));
        keys.push((mod_mask, KEY_RIGHT, WmAction::ShiftWindow(WINDOW_MOVE_DELTA, 0)));
        keys.push((mod_mask, KEY_UP, WmAction::ShiftWindow(0, -WINDOW_MOVE_DELTA)));
        keys.push((mod_mask, KEY_DOWN, WmAction::ShiftWindow(0, WINDOW_MOVE_DELTA)));
        keys.push((mod_mask | SHIFT_MASK, KEY_UP, WmAction::ExpandHeight(-WINDOW_EXPAND_DELTA)));
        keys.push((mod_mask | SHIFT_MASK, KEY_DOWN, WmAction::ExpandHeight(WINDOW_EXPAND_DELTA)));
        keys.push((mod_mask | SHIFT_MASK, KEY_RIGHT, WmAction::ExpandWidth(WINDOW_EXPAND_DELTA)));
        keys.push((mod_mask | SHIFT_MASK, KEY_LEFT, WmAction::ExpandWidth(-WINDOW_EXPAND_DELTA)));
        keys.push((mod_mask, KEY_F2, WmAction::SelectTag(TAG_OVERVIEW)));
        keys.push((mod_mask, KEY_RETURN, WmAction::Promote));
        assert(keys@ =~= default_keys(mod_mask));
        let mut names: Vec<u8> = Vec::new();
        names.push(49);
        names.push(50);
        names.push(51);
        names.push(52);
        names.push(53);
        names.push(54);
        names.push(55);
        names.push(56);
        names.push(57);
        names.push(48);
        assert(names@ =~= default_tags());
        let (tag_keys, tags) = define_tags(mod_mask, SHIFT_MASK, &names);
        Config {
            mod_key: mod_mask,
            add_keys: Vec::new(),
            bar_height: BAR_HEIGHT,
            border_width: BORDER_WIDTH,
            focused_border_color: FOCUSED_BORDER_COLOR,
            normal_border_color: NORMAL_BORDER_COLOR,
            keys,
            overview_inset: OVERVIEW_INSET,
            rules: Vec::new(),
            start_programs: Vec::new(),
            tag_default: tags[0],
            tags,
            tag_description: Vec::new(),
            tag_keys,
            tag_layout: Vec::new(),
            window_expand_delta: WINDOW_EXPAND_DELTA,
            window_move_delta: WINDOW_MOVE_DELTA,
        }
    }

    pub fn addtional_keys(self, keys: Vec<KeyBinding>) -> (c: Config)
        ensures
            c == (Config { add_keys: keys, ..self }),
    {
        let mut c = self;
        c.add_keys = keys;
        c
    }

    pub fn bar_height(self, bar_height: i32) -> (c: Config)
        ensures
            c == (Config { bar_height, ..self }),
    {
        let mut c = self;
        c.bar_height = bar_height;
        c
    }

    pub fn border_width(self, border_width: i32) -> (c: Config)
        ensures
            c == (Config { border_width, ..self }),
    {
        let mut c = self;
        c.border_width = border_width;
        c
    }

    pub fn focused_border_color(self, color: &'static str) -> (c: Config)
        ensures
            c == (Config { focused_border_color: color, ..self }),
    {
        let mut c = self;
        c.focused_border_color = color;
        c
    }

    pub fn keys(self, keys: Vec<KeyBinding>) -> (c: Config)
        ensures
            c == (Config { keys, ..self }),
    {
        let mut c = self;
        c.keys = keys;
        c
    }

    /// The keys of the tags are taken away.
    pub fn no_default_keys(self) -> (c: Config)
        ensures
            c == (Config { tag_keys: c.tag_keys, ..self }),
            c.tag_keys@.len() == 0,
    {
        let mut c = self;
        c.tag_keys = Vec::new();
        c
    }

    pub fn normal_border_color(self, color: &'static str) -> (c: Config)
        ensures
            c == (Config { normal_border_color: color, ..self }),
    {
        let mut c = self;
        c.normal_border_color = color;
        c
    }

    pub fn overview_inset(self, inset: i32) -> (c: Config)
        ensures
            c == (Config { overview_inset: inset, ..self }),
    {
        let mut c = self;
        c.overview_inset = inset;
        c
    }

    pub fn rules(self, rules: Vec<(ClientPredicate, ClientAction)>) -> (c: Config)
        ensures
            c == (Config { rules, ..self }),
    {
        let mut c = self;
        c.rules = rules;
        c
    }

    pub fn start_programs(self, start: Vec<StartAction>) -> (c: Config)
        ensures
            c == (Config { start_programs: start, ..self }),
    {
        let mut c = self;
        c.start_programs = start;
        c
    }

    pub fn tag_default(self, tag: u8) -> (c: Config)
        ensures
            c == (Config { tag_default: tag, ..self }),
    {
        let mut c = self;
        c.tag_default = tag;
        c
    }

    pub fn tag_description(self, description: Vec<(u8, String)>) -> (c: Config)
        ensures
            c == (Config { tag_description: description, ..self }),
    {
        let mut c = self;
        c.tag_description = description;
        c
    }

    /// Takes the keys of the tags, and the first of the tags as the one to start on.
    pub fn tag_keys(self, keys: (Vec<KeyBinding>, Vec<u8>)) -> (c: Config)
        requires
            keys.1@.len() > 0,
        ensures
            c == (Config { tag_keys: keys.0, tag_default: keys.1@[0], ..self }),
    {
        let mut c = self;
        c.tag_default = keys.1[0];
        c.tag_keys = keys.0;
        c
    }

    pub fn tag_layout(self, layout: Vec<(u8, Layout)>) -> (c: Config)
        ensures
            c == (Config { tag_layout: layout, ..self }),
    {
        let mut c = self;
        c.tag_layout = layout;
        c
    }

    pub fn window_expand_delta(self, delta: i32) -> (c: Config)
        ensures
            c == (Config { window_expand_delta: delta, ..self }),
    {
        let mut c = self;
        c.window_expand_delta = delta;
        c
    }

    pub fn window_move_delta(self, delta: i32) -> (c: Config)
        ensures
            c == (Config { window_move_delta: delta, ..self }),
    {
        let mut c = self;
        c.window_move_delta = delta;
        c
    }

    /// The sizes are such that a layout can work with them: none is
    /// negative, none is larger than `CONFIG_LIMIT`.
    pub open spec fn geometry_ok(&self) -> bool {
        &&& 0 <= self.border_width <= CONFIG_LIMIT
        &&& 0 <= self.bar_height <= CONFIG_LIMIT
        &&& 0 <= self.overview_inset <= CONFIG_LIMIT
    }

    pub fn check_geometry(&self) -> (b: bool)
        ensures
            b == self.geometry_ok(),
    {
        0 <= self.border_width && self.border_width <= CONFIG_LIMIT && 0 <= self.bar_height
            && self.bar_height <= CONFIG_LIMIT && 0 <= self.overview_inset && self.overview_inset
            <= CONFIG_LIMIT
    }

    pub fn get_description(&self, tag: u8) -> (d: Option<&str>)
        ensures
            match d {
                Some(text) => description_of(self.tag_description@, tag) is Some && text@
                    == description_of(self.tag_description@, tag).unwrap()@,
                None => description_of(self.tag_description@, tag) is None,
            },
    {
        let mut i: usize = 0;
        assert(self.tag_description@.skip(0) =~= self.tag_description@);
        while i < self.tag_description.len()
            invariant
                i <= self.tag_description@.len(),
                description_of(self.tag_description@, tag) == description_of(
                    self.tag_description@.skip(i as int),
                    tag,
                ),
            decreases self.tag_description@.len() - i,
        {
            let ghost rest = self.tag_description@.skip(i as int);
            assert(rest[0] == self.tag_description@[i as int]);
            assert(rest.skip(1) =~= self.tag_description@.skip(i + 1));
            if self.tag_description[i].0 == tag {
                return Some(self.tag_description[i].1.as_str());
            }
            i += 1;
        }
        None
    }
}

} // verus!

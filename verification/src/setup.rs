//! How a manager is made from a configuration and what is known of the display.

use vstd::prelude::*;
use std::rc::Rc;
use crate::atoms::AtomTable;
use crate::config::{description_of, Config, TAG_OVERVIEW};
use crate::display::Request;
use crate::layout::{Layout, Tile};
use crate::manager::{frames_of, BackStack, WindowManager};
use crate::rect::Rect;
use crate::ring::{lemma_position, position, Ring};
use crate::state::{layout_for, Colors};
use crate::workspace::{Frame, Workspace};

verus! {

/// The layout that the configuration names for the tag; tiles if it names none.
pub fn lookup_layout(config: &Config, tag: u8) -> (layout: Layout)
    ensures
        layout == layout_for(config.tag_layout@, tag),
{
    let mut i: usize = 0;
    assert(config.tag_layout@.skip(0) =~= config.tag_layout@);
    while i < config.tag_layout.len()
        invariant
            i <= config.tag_layout@.len(),
            layout_for(config.tag_layout@, tag) == layout_for(config.tag_layout@.skip(i as int), tag),
        decreases config.tag_layout@.len() - i,
    {
        let ghost rest = config.tag_layout@.skip(i as int);
        assert(rest[0] == config.tag_layout@[i as int]);
        assert(rest.skip(1) =~= config.tag_layout@.skip(i + 1));
        if config.tag_layout[i].0 == tag {
            return config.tag_layout[i].1.clone_layout();
        }
        i += 1;
    }
    Layout::Tile(Tile)
}

/// What the display's owner knows when the manager starts.
pub struct Screen {
    pub root: u64,
    /// A window that is never shown, below which the focused tiled client is stacked.
    pub anchor_window: u64,
    pub width: i32,
    pub height: i32,
    /// The rectangles of the monitors.
    pub rects: Vec<Rect>,
    pub atoms: AtomTable,
    pub colors: Colors,
}

pub open spec fn tags_of(frames: Seq<Frame>) -> Seq<u64> {
    frames.map_values(|f: Frame| f.tag as u64)
}

/// The frames with one more: it takes the place of the frame with its
/// tag, if there is one, and else comes last.
pub open spec fn put_frame(frames: Seq<Frame>, frame: Frame) -> Seq<Frame> {
    match position(tags_of(frames), frame.tag as u64) {
        Some(i) => frames.update(i, frame),
        None => frames.push(frame),
    }
}

/// The frame of the workspace of a tag on the monitor with the rectangle.
pub open spec fn frame_for(config: Config, anchor_window: u64, tag: u8, rect: Rect) -> Frame {
    Frame { anchor_window, config, layout: layout_for(config.tag_layout@, tag), rect, tag }
}

/// The monitor of the tag with index `i`: the monitor with that index,
/// or the last monitor if there are not so many.
pub open spec fn monitor(rects: Seq<Rect>, i: int) -> Rect {
    if i < rects.len() {
        rects[i]
    } else {
        rects.last()
    }
}

/// The frames of the workspaces of the first `upto` tags of the configuration.
pub open spec fn tag_frames(config: Config, anchor_window: u64, rects: Seq<Rect>, upto: nat) -> Seq<
    Frame,
>
    decreases upto,
{
    if upto == 0 {
        Seq::empty()
    } else {
        put_frame(
            tag_frames(config, anchor_window, rects, (upto - 1) as nat),
            frame_for(config, anchor_window, config.tags@[upto - 1], monitor(rects, upto - 1)),
        )
    }
}

/// The frames that a manager starts with: one for each tag of the
/// configuration, and one for the overview on the first monitor.
pub open spec fn first_frames(config: Config, anchor_window: u64, rects: Seq<Rect>) -> Seq<Frame> {
    put_frame(
        tag_frames(config, anchor_window, rects, config.tags@.len()),
        frame_for(config, anchor_window, TAG_OVERVIEW, rects[0]),
    )
}

/// A frame that was put is there, and so is every frame that was there before.
pub proof fn lemma_put_frame_has(frames: Seq<Frame>, frame: Frame, tag: u8)
    requires
        position(tags_of(frames), tag as u64) is Some || frame.tag == tag,
    ensures
        position(tags_of(put_frame(frames, frame)), tag as u64) is Some,
{
    let tags = tags_of(frames);
    let after = tags_of(put_frame(frames, frame));
    lemma_position(tags, frame.tag as u64);
    lemma_position(tags, tag as u64);
    lemma_position(after, tag as u64);
    match position(tags, frame.tag as u64) {
        Some(i) => {
            assert(after =~= tags);
        },
        None => {
            assert(after =~= tags.push(frame.tag as u64));
            if frame.tag == tag {
                assert(after[tags.len() as int] == tag as u64);
            } else {
                let j = position(tags, tag as u64).unwrap();
                assert(after[j] == tag as u64);
            }
        },
    }
}

/// Every tag of the configuration has a frame.
pub proof fn lemma_tag_frames_has(
    config: Config,
    anchor_window: u64,
    rects: Seq<Rect>,
    upto: nat,
    j: int,
)
    requires
        0 <= j < upto <= config.tags@.len(),
    ensures
        position(tags_of(tag_frames(config, anchor_window, rects, upto)), config.tags@[j] as u64)
            is Some,
    decreases upto,
{
    if j < upto - 1 {
        lemma_tag_frames_has(config, anchor_window, rects, (upto - 1) as nat, j);
    }
    lemma_put_frame_has(
        tag_frames(config, anchor_window, rects, (upto - 1) as nat),
        frame_for(config, anchor_window, config.tags@[upto - 1], monitor(rects, upto - 1)),
        config.tags@[j],
    );
}

/// What a workspace is when a manager starts: empty, and described as
/// the configuration says.
pub open spec fn starts(w: Workspace, config: Rc<Config>) -> bool {
    &&& w.ring() == Ring::empty()
    &&& w.config == config
    &&& match w.description {
        Some(d) => description_of(config.tag_description@, w.tag) is Some && d@ == description_of(
            config.tag_description@,
            w.tag,
        ).unwrap()@,
        None => description_of(config.tag_description@, w.tag) is None,
    }
}

/// Puts the workspace in the place of the one with its tag, or last.
fn put_workspace(workspaces: &mut Vec<Workspace>, w: Workspace)
    ensures
        frames_of(final(workspaces)@) == put_frame(frames_of(old(workspaces)@), w.frame()),
        final(workspaces)@.len() >= old(workspaces)@.len(),
        forall|i: int|
            0 <= i < final(workspaces)@.len() ==> (#[trigger] final(workspaces)@[i]) == w || (i < old(
                workspaces,
            )@.len() && final(workspaces)@[i] == old(workspaces)@[i]),
{
    let ghost frames = frames_of(workspaces@);
    let ghost tags = tags_of(frames);
    let mut i: usize = 0;
    while i < workspaces.len()
        invariant
            i <= workspaces@.len(),
            *workspaces == *old(workspaces),
            frames == frames_of(workspaces@),
            tags == tags_of(frames),
            forall|j: int| 0 <= j < i ==> tags[j] != w.tag as u64,
        decreases workspaces@.len() - i,
    {
        assert(tags[i as int] == workspaces@[i as int].tag as u64);
        if workspaces[i].tag == w.tag {
            proof {
                lemma_position(tags, w.tag as u64);
            }
            let ghost frame = w.frame();
            workspaces.set(i, w);
            assert(frames_of(workspaces@) =~= frames.update(i as int, frame));
            return ;
        }
        i += 1;
    }
    proof {
        lemma_position(tags, w.tag as u64);
    }
    let ghost frame = w.frame();
    workspaces.push(w);
    assert(frames_of(workspaces@) =~= frames.push(frame));
}

/// The workspace of a tag as it is when a manager starts.
fn first_workspace(config: &Rc<Config>, anchor_window: u64, tag: u8, rect: Rect) -> (w: Workspace)
    ensures
        starts(w, *config),
        w.frame() == frame_for(**config, anchor_window, tag, rect),
{
    let description = match config.get_description(tag) {
        Some(text) => Some(text.to_owned()),
        None => None,
    };
    Workspace::new(
        config.clone(),
        anchor_window,
        tag,
        description,
        lookup_layout(&**config, tag),
        rect,
    )
}

impl WindowManager {
    /// A manager for the configuration: with an empty workspace for each
    /// of its tags and one for the overview, on the tag that the
    /// configuration starts on. The display is asked to publish what
    /// the manager supports and to grab its keys.
    pub fn new(cfg: Config, screen: Screen, out: &mut Vec<Request>) -> (wm: WindowManager)
        requires
            screen.rects@.len() > 0,
            cfg.tags@.contains(cfg.tag_default),
        ensures
            wm.wf(),
            *wm.config == cfg,
            wm.root == screen.root,
            wm.anchor_window == screen.anchor_window,
            wm.screen_width == screen.width,
            wm.screen_height == screen.height,
            wm.atoms == screen.atoms,
            wm.colors == screen.colors,
            wm.current_tag == cfg.tag_default,
            wm.clients@.len() == 0,
            wm.special_windows@.len() == 0,
            wm.back_stack.stack@.len() == 0,
            frames_of(wm.workspaces@) == first_frames(cfg, screen.anchor_window, screen.rects@),
            forall|i: int| 0 <= i < wm.workspaces@.len() ==> starts(#[trigger] wm.workspaces@[i], wm.config),
            wm.view(final(out)@) == wm.view(old(out)@).sent(
                seq![Request::Announce, Request::ClearClientList],
            ).keys_grabbed(),
    {
        let config = Rc::new(cfg);
        let anchor_window = screen.anchor_window;
        let mut workspaces: Vec<Workspace> = Vec::new();
        let mut i: usize = 0;
        assert(frames_of(workspaces@) =~= Seq::<Frame>::empty());
        while i < config.tags.len()
            invariant
                i <= config.tags@.len(),
                *config == cfg,
                screen.rects@.len() > 0,
                anchor_window == screen.anchor_window,
                frames_of(workspaces@) == tag_frames(cfg, anchor_window, screen.rects@, i as nat),
                forall|j: int| 0 <= j < workspaces@.len() ==> starts(#[trigger] workspaces@[j], config),
            decreases config.tags@.len() - i,
        {
            let tag = config.tags[i];
            let rect = if i < screen.rects.len() {
                screen.rects[i]
            } else {
                screen.rects[screen.rects.len() - 1]
            };
            let w = first_workspace(&config, anchor_window, tag, rect);
            put_workspace(&mut workspaces, w);
            i += 1;
        }
        let overview = first_workspace(&config, anchor_window, TAG_OVERVIEW, screen.rects[0]);
        put_workspace(&mut workspaces, overview);
        let wm = WindowManager {
            config: config.clone(),
            anchor_window,
            root: screen.root,
            screen_width: screen.width,
            screen_height: screen.height,
            current_tag: config.tag_default,
            special_windows: Vec::new(),
            colors: screen.colors,
            workspaces,
            back_stack: BackStack::new(),
            clients: Vec::new(),
            atoms: screen.atoms,
        };
        proof {
            let frames = tag_frames(cfg, anchor_window, screen.rects@, cfg.tags@.len());
            let last = frame_for(cfg, anchor_window, TAG_OVERVIEW, screen.rects@[0]);
            let j = choose|j: int| 0 <= j < cfg.tags@.len() && cfg.tags@[j] == cfg.tag_default;
            lemma_tag_frames_has(cfg, anchor_window, screen.rects@, cfg.tags@.len(), j);
            lemma_put_frame_has(frames, last, cfg.tag_default);
            lemma_put_frame_has(frames, last, TAG_OVERVIEW);
            assert(wm.view(Seq::empty()).frames == first_frames(cfg, anchor_window, screen.rects@));
            assert(wm.view(Seq::empty()).tags() == tags_of(wm.view(Seq::empty()).frames));
        }
        out.push(Request::Announce);
        out.push(Request::ClearClientList);
        assert(out@ =~= old(out)@ + seq![Request::Announce, Request::ClearClientList]);
        wm.grab_keys(out);
        wm
    }

    /// The workspace in use, to change it.
    pub fn current_workspace_mut(&mut self) -> (w: &mut Workspace)
        requires
            old(self).wf(),
        ensures
            *w == old(self).workspaces@[old(self).view(Seq::empty()).current()],
            final(self).workspaces@ == old(self).workspaces@.update(
                old(self).view(Seq::empty()).current(),
                *final(w),
            ),
            final(self).same_setup(old(self)),
            final(self).clients@ == old(self).clients@,
    {
        let at = self.current_index();
        &mut self.workspaces[at]
    }
}

} // verus!

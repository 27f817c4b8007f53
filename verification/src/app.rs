//! The application: which panel has focus, and what each key does to the
//! tree and the viewer. What a key calls for that needs the file system or
//! git is handed back as an effect, for the caller to perform.

use vstd::prelude::*;
use crate::highlight::Highlighter;
use crate::tree::{DirItem, FileTree, TreeAction};
use crate::viewer::{has_change_before, scrolled_down, scrolled_up, CodeViewer, ViewMode};

verus! {

/// Which panel currently has focus.
#[derive(Clone, Copy, Debug, PartialEq, Eq, Structural)]
pub enum Panel {
    Tree,
    Viewer,
}

/// The key of a key press.
#[derive(Clone, Copy, Debug, PartialEq, Eq, Structural)]
pub enum KeyCode {
    Char(char),
    Tab,
    Enter,
    Up,
    Down,
    Left,
    Right,
    PageUp,
    PageDown,
    Home,
    End,
    Other,
}

/// A key press: the key, and whether Control was held.
#[derive(Clone, Copy, Debug, PartialEq, Eq, Structural)]
pub struct KeyPress {
    pub code: KeyCode,
    pub ctrl: bool,
}

/// What a key calls for beyond the state it changed.
#[derive(Clone, Debug)]
pub enum Effect {
    /// Nothing more.
    Nothing,
    /// Read the file at this path and load it (`load_file`).
    OpenFile(String),
    /// List the directory at this path and expand its entry
    /// (`FileTree::expand`).
    ExpandDir { index: usize, path: String },
    /// Run git's diff for the file at this path and load it
    /// (`CodeViewer::load_git_diff`).
    LoadDiff(String),
}

/// Top-level application state.
pub struct App {
    pub tree: FileTree,
    pub viewer: CodeViewer,
    pub highlighter: Highlighter,
    pub focus: Panel,
    pub quit: bool,
}

/// The effect that a tree action calls for.
pub open spec fn tree_effect(a: TreeAction) -> Effect {
    match a {
        TreeAction::OpenFile(p) => Effect::OpenFile(p),
        TreeAction::Expand { index, path } => Effect::ExpandDir { index, path },
        TreeAction::Collapsed => Effect::Nothing,
    }
}

/// The key quits: `q`, or Control with `c`.
pub open spec fn is_quit_key(k: KeyPress) -> bool {
    k.code == KeyCode::Char('q') || (k.code == KeyCode::Char('c') && k.ctrl)
}

/// The key is one of two.
pub open spec fn key_is(k: KeyPress, a: KeyCode, b: KeyCode) -> bool {
    k.code == a || k.code == b
}

/// What a key does in the tree panel: `self` after it, from `old`, and the
/// effect `e`.
pub open spec fn tree_key_result(new: App, old: App, k: KeyPress, e: Effect) -> bool {
    &&& new.viewer == old.viewer
    &&& new.focus == old.focus
    &&& new.quit == old.quit
    &&& if key_is(k, KeyCode::Char('j'), KeyCode::Down) {
        new.tree.moved_down_from(old.tree) && e == Effect::Nothing
    } else if key_is(k, KeyCode::Char('k'), KeyCode::Up) {
        new.tree.moved_up_from(old.tree) && e == Effect::Nothing
    } else if k.code == KeyCode::Enter {
        exists|a: TreeAction| new.tree.toggled_from(old.tree, a) && e == tree_effect(a)
    } else {
        new.tree == old.tree && e == Effect::Nothing
    }
}

/// What a key does in the viewer panel: `self` after it, from `old`, and the
/// effect `e`.
pub open spec fn viewer_key_result(new: App, old: App, k: KeyPress, e: Effect) -> bool {
    let v = new.viewer;
    let o = old.viewer;
    &&& new.tree == old.tree
    &&& new.focus == old.focus
    &&& new.quit == old.quit
    &&& if key_is(k, KeyCode::Char('j'), KeyCode::Down) {
        v.same_but_scroll(&o) && v.scroll == scrolled_down(o.scroll as nat, 1, o.max_scroll_spec())
            && e == Effect::Nothing
    } else if key_is(k, KeyCode::Char('k'), KeyCode::Up) {
        v.same_but_scroll(&o) && v.scroll == scrolled_up(o.scroll as nat, 1) && e == Effect::Nothing
    } else if k.code == KeyCode::PageDown {
        v.same_but_scroll(&o) && v.scroll == scrolled_down(o.scroll as nat, 20, o.max_scroll_spec())
            && e == Effect::Nothing
    } else if k.code == KeyCode::PageUp {
        v.same_but_scroll(&o) && v.scroll == scrolled_up(o.scroll as nat, 20) && e == Effect::Nothing
    } else if key_is(k, KeyCode::Char('g'), KeyCode::Home) {
        v.same_but_scroll(&o) && v.scroll == 0 && e == Effect::Nothing
    } else if key_is(k, KeyCode::Char('G'), KeyCode::End) {
        v.same_but_scroll(&o) && v.scroll == o.max_scroll_spec() && e == Effect::Nothing
    } else if k.code == KeyCode::Char('d') {
        exists|r: Option<String>|
            v.mode_toggled_from(o, r) && e == (match r {
                Some(p) => Effect::LoadDiff(p),
                None => Effect::Nothing,
            })
    } else if key_is(k, KeyCode::Char('n'), KeyCode::Right) {
        v.same_but_scroll(&o) && e == Effect::Nothing && (o.view_mode != ViewMode::GitDiff
            ==> v.scroll == o.scroll) && (o.view_mode == ViewMode::GitDiff ==> v.scroll
            == crate::viewer::next_change_target(o.diff_lines@, o.scroll as int))
    } else if key_is(k, KeyCode::Char('N'), KeyCode::Left) {
        v.same_but_scroll(&o) && e == Effect::Nothing && (o.view_mode != ViewMode::GitDiff
            ==> v.scroll == o.scroll) && (o.view_mode == ViewMode::GitDiff ==> v.scroll
            == crate::viewer::prev_change_target(o.diff_lines@, o.scroll as int))
    } else {
        new.viewer == old.viewer && e == Effect::Nothing
    }
}

/// A viewer key's scrolling fits in a `usize`: stepping down a row or a page
/// from the scroll, or, in diff mode, looking at the row after it (always
/// for the next change, only where no change lies before it for the
/// previous one).
pub open spec fn viewer_key_fits(v: CodeViewer, k: KeyPress) -> bool {
    if key_is(k, KeyCode::Char('j'), KeyCode::Down) {
        v.scroll + 1 <= usize::MAX
    } else if k.code == KeyCode::PageDown {
        v.scroll + 20 <= usize::MAX
    } else if key_is(k, KeyCode::Char('n'), KeyCode::Right) {
        v.view_mode == ViewMode::GitDiff ==> v.scroll < usize::MAX
    } else if key_is(k, KeyCode::Char('N'), KeyCode::Left) {
        v.view_mode == ViewMode::GitDiff && !has_change_before(v.diff_lines@, v.scroll as int) ==> v.scroll
            < usize::MAX
    } else {
        true
    }
}

/// The other panel.
pub open spec fn other_panel(p: Panel) -> Panel {
    match p {
        Panel::Tree => Panel::Viewer,
        Panel::Viewer => Panel::Tree,
    }
}

/// What a key does to the application: `new` after it, from `old`, and the
/// effect `e`. Quit keys quit and Tab switches focus, whatever the panel;
/// other keys go to the panel with focus.
pub open spec fn key_result(new: App, old: App, k: KeyPress, e: Effect) -> bool {
    if is_quit_key(k) {
        new.quit && new.tree == old.tree && new.viewer == old.viewer && new.focus == old.focus
            && e == Effect::Nothing
    } else if k.code == KeyCode::Tab {
        new.focus == other_panel(old.focus) && new.tree == old.tree && new.viewer == old.viewer
            && new.quit == old.quit && e == Effect::Nothing
    } else if old.focus == Panel::Tree {
        tree_key_result(new, old, k, e)
    } else {
        viewer_key_result(new, old, k, e)
    }
}

impl App {
    /// A fresh application for the directory `root`, whose listing gave
    /// `items`: the tree built from them, an empty viewer, focus on the
    /// tree.
    pub fn new(root: &String, items: &Vec<DirItem>) -> (r: Self)
        ensures
            r.tree.built_from(root@, items@),
            r.viewer.is_fresh(),
            r.focus == Panel::Tree,
            !r.quit,
    {
        App {
            tree: FileTree::new(root, items),
            viewer: CodeViewer::new(),
            highlighter: Highlighter::new(),
            focus: Panel::Tree,
            quit: false,
        }
    }

    /// Loads a file (read by the caller) into the viewer.
    pub fn load_file(&mut self, path: &String, contents: Result<Vec<u8>, String>)
        ensures
            final(self).viewer.loaded_from(old(self).viewer, path@, contents),
            final(self).tree == old(self).tree,
            final(self).focus == old(self).focus,
            final(self).quit == old(self).quit,
    {
        self.viewer.load(path, contents, &self.highlighter);
    }

    /// Dispatches a key press to the panel with focus.
    pub fn handle_key(&mut self, key: KeyPress) -> (e: Effect)
        requires
            !is_quit_key(key) && key.code != KeyCode::Tab && old(self).focus == Panel::Tree
                && key.code == KeyCode::Enter ==> old(self).tree.selected < old(self).tree.entries@.len(),
            !is_quit_key(key) && key.code != KeyCode::Tab && old(self).focus == Panel::Viewer
                ==> viewer_key_fits(old(self).viewer, key),
        ensures
            key_result(*final(self), *old(self), key, e),
            old(self).tree.wf() ==> final(self).tree.wf(),
    {
        match key.code {
            KeyCode::Char('q') => {
                self.quit = true;
                return Effect::Nothing;
            },
            KeyCode::Char('c') => {
                if key.ctrl {
                    self.quit = true;
                    return Effect::Nothing;
                }
            },
            KeyCode::Tab => {
                self.focus = match self.focus {
                    Panel::Tree => Panel::Viewer,
                    Panel::Viewer => Panel::Tree,
                };
                return Effect::Nothing;
            },
            _ => {},
        }
        match self.focus {
            Panel::Tree => self.handle_tree_key(key),
            Panel::Viewer => self.handle_viewer_key(key),
        }
    }

    fn handle_tree_key(&mut self, key: KeyPress) -> (e: Effect)
        requires
            key.code == KeyCode::Enter ==> old(self).tree.selected < old(self).tree.entries@.len(),
        ensures
            tree_key_result(*final(self), *old(self), key, e),
            old(self).tree.wf() ==> final(self).tree.wf(),
    {
        match key.code {
            KeyCode::Char('j') | KeyCode::Down => {
                self.tree.move_down();
                proof {
                    assert(key_is(key, KeyCode::Char('j'), KeyCode::Down));
                }
                Effect::Nothing
            },
            KeyCode::Char('k') | KeyCode::Up => {
                self.tree.move_up();
                proof {
                    assert(!key_is(key, KeyCode::Char('j'), KeyCode::Down));
                }
                Effect::Nothing
            },
            KeyCode::Enter => {
                let a = self.tree.toggle_selected();
                let ghost ga = a;
                let e = match a {
                    TreeAction::OpenFile(p) => Effect::OpenFile(p),
                    TreeAction::Expand { index, path } => Effect::ExpandDir { index, path },
                    TreeAction::Collapsed => Effect::Nothing,
                };
                proof {
                    assert(self.tree.toggled_from(old(self).tree, ga) && e == tree_effect(ga));
                }
                e
            },
            _ => Effect::Nothing,
        }
    }

    fn handle_viewer_key(&mut self, key: KeyPress) -> (e: Effect)
        requires
            viewer_key_fits(old(self).viewer, key),
        ensures
            viewer_key_result(*final(self), *old(self), key, e),
    {
        match key.code {
            KeyCode::Char('j') | KeyCode::Down => self.viewer.scroll_down(1),
            KeyCode::Char('k') | KeyCode::Up => self.viewer.scroll_up(1),
            KeyCode::PageDown => self.viewer.scroll_down(20),
            KeyCode::PageUp => self.viewer.scroll_up(20),
            KeyCode::Char('g') | KeyCode::Home => self.viewer.scroll_to_top(),
            KeyCode::Char('G') | KeyCode::End => self.viewer.scroll_to_bottom(),
            KeyCode::Char('d') => {
                return match self.viewer.toggle_view_mode() {
                    Some(p) => Effect::LoadDiff(p),
                    None => Effect::Nothing,
                };
            },
            KeyCode::Char('n') | KeyCode::Right => self.viewer.jump_to_next_change(),
            KeyCode::Char('N') | KeyCode::Left => self.viewer.jump_to_prev_change(),
            _ => {},
        }
        Effect::Nothing
    }
}

/// A quit key quits, whatever the panel with focus.
pub proof fn lemma_quit_key_quits(new: App, old: App, k: KeyPress, e: Effect)
    requires
        key_result(new, old, k, e),
        is_quit_key(k),
    ensures
        new.quit,
        new.tree == old.tree,
        new.viewer == old.viewer,
{
}

/// Tab twice gives focus back to the panel that had it.
pub proof fn lemma_tab_twice(a0: App, a1: App, a2: App, k: KeyPress, e1: Effect, e2: Effect)
    requires
        k.code == KeyCode::Tab,
        key_result(a1, a0, k, e1),
        key_result(a2, a1, k, e2),
    ensures
        a2.focus == a0.focus,
        a2.tree == a0.tree,
        a2.viewer == a0.viewer,
{
}

/// In the viewer panel, the scroll keys move the view over the rows of its
/// mode: `j` or Down one row down and PageDown twenty, never past the last
/// row; `k` or Up one row up and PageUp twenty, never above the first; `g`
/// or Home to the first row and `G` or End to the last. None of them
/// changes anything but the scroll, or asks for outside work.
pub proof fn lemma_viewer_scroll_keys(new: App, old: App, k: KeyPress, e: Effect)
    requires
        key_result(new, old, k, e),
        old.focus == Panel::Viewer,
    ensures
        ({
            let s = old.viewer.scroll as int;
            let t = new.viewer.scroll as int;
            let rows: int = match old.viewer.view_mode {
                ViewMode::Normal => old.viewer.lines@.len() as int,
                ViewMode::GitDiff => old.viewer.diff_lines@.len() as int,
            };
            let last: int = if rows > 0 { rows - 1 } else { 0 };
            &&& (k.code == KeyCode::Char('j') || k.code == KeyCode::Down) ==> {
                &&& s + 1 <= last ==> t == s + 1
                &&& s + 1 > last ==> t == last
                &&& s < last ==> s < t
                &&& new.viewer.same_but_scroll(&old.viewer) && e == Effect::Nothing
            }
            &&& k.code == KeyCode::PageDown ==> {
                &&& s + 20 <= last ==> t == s + 20
                &&& s + 20 > last ==> t == last
                &&& new.viewer.same_but_scroll(&old.viewer) && e == Effect::Nothing
            }
            &&& (k.code == KeyCode::Char('k') || k.code == KeyCode::Up) ==> {
                &&& s >= 1 ==> t == s - 1
                &&& s == 0 ==> t == 0
                &&& new.viewer.same_but_scroll(&old.viewer) && e == Effect::Nothing
            }
            &&& k.code == KeyCode::PageUp ==> {
                &&& s >= 20 ==> t == s - 20
                &&& s < 20 ==> t == 0
                &&& new.viewer.same_but_scroll(&old.viewer) && e == Effect::Nothing
            }
            &&& (k.code == KeyCode::Char('g') || k.code == KeyCode::Home) ==> t == 0
                && new.viewer.same_but_scroll(&old.viewer) && e == Effect::Nothing
            &&& (k.code == KeyCode::Char('G') || k.code == KeyCode::End) ==> t == last
                && new.viewer.same_but_scroll(&old.viewer) && e == Effect::Nothing
        }),
{
}

} // verus!

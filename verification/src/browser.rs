//! What the keys of the interactive browser do: moving the cursor, folding
//! rows, scrolling the detail pane and typing a filter.
use vstd::prelude::*;
use vstd::string::{StrSliceExecFns, StringExecFns};
use crate::model::TreeModel;

verus! {

/// What the keys act on: the tree, or the filter being typed.
#[derive(Clone, Copy, Debug, PartialEq, Eq, Structural)]
pub enum BrowserMode {
    Normal,
    Filter,
}

/// A key press, as far as the browser tells keys apart.
#[derive(Clone, Copy, Debug, PartialEq, Eq, Structural)]
pub enum BrowserKey {
    Char(char),
    Up,
    Down,
    Left,
    Right,
    PageUp,
    PageDown,
    Enter,
    Esc,
    Backspace,
    Other,
}

/// How far one page key scrolls the detail pane.
pub const DETAIL_PAGE: u16 = 10;

/// The keys that end the browser in normal mode.
pub open spec fn quits(key: BrowserKey) -> bool {
    key == BrowserKey::Char('q') || key == BrowserKey::Esc
}

/// The keys that move the cursor down.
pub open spec fn moves_down(key: BrowserKey) -> bool {
    key == BrowserKey::Char('j') || key == BrowserKey::Down
}

/// The keys that move the cursor up.
pub open spec fn moves_up(key: BrowserKey) -> bool {
    key == BrowserKey::Char('k') || key == BrowserKey::Up
}

/// The keys that expand the row under the cursor.
pub open spec fn opens(key: BrowserKey) -> bool {
    key == BrowserKey::Char('l') || key == BrowserKey::Right
}

/// The keys that collapse the row under the cursor.
pub open spec fn closes(key: BrowserKey) -> bool {
    key == BrowserKey::Char('h') || key == BrowserKey::Left
}

/// `String::push`: appends one character at the end of the text.
#[verifier::external_body]
fn push_char(s: &mut String, c: char)
    ensures
        final(s)@ == old(s)@.push(c),
{
    s.push(c)
}

/// Drops the last character of a text, if it has one.
fn drop_last_char(s: &mut String)
    ensures
        final(s)@ == (if old(s)@.len() > 0 { old(s)@.drop_last() } else { old(s)@ }),
{
    let n = s.as_str().unicode_len();
    if n > 0 {
        let shorter = String::from_str(s.as_str().substring_char(0, n - 1));
        *s = shorter;
    }
}

/// The state of the browser: the tree, the rows it shows, where the cursor
/// stands, how far the detail pane is scrolled, and the filter being typed.
pub struct Browser {
    pub model: TreeModel,
    pub visible: Vec<usize>,
    pub cursor: usize,
    pub detail_scroll: u16,
    pub mode: BrowserMode,
    pub filter_input: String,
}

impl Browser {
    /// A browser on a tree, showing its rows with the cursor on the first,
    /// in normal mode.
    pub fn new(model: TreeModel) -> (r: Browser)
        ensures
            r.model == model,
            r.visible@ == model.spec_visible(),
            r.cursor == 0,
            r.detail_scroll == 0,
            r.mode == BrowserMode::Normal,
            r.filter_input@ == Seq::<char>::empty(),
    {
        let visible = model.visible_rows();
        Browser { model, visible, cursor: 0, detail_scroll: 0, mode: BrowserMode::Normal, filter_input: String::new() }
    }

    /// Acts on a key press; `true` when the browser should end.
    ///
    /// In normal mode: `q` or Esc ends; `j`/Down and `k`/Up move the cursor
    /// one row; `l`/Right expands and `h`/Left collapses the row under the
    /// cursor; PageDown and PageUp scroll the detail pane; `/` starts typing
    /// a filter, from the one in force. In filter mode: Enter applies the
    /// typed filter and puts the cursor on the first row; Esc clears it;
    /// Backspace drops the last character; any other character is typed.
    pub fn handle_key(&mut self, key: BrowserKey) -> (quit: bool)
        ensures
            old(self).mode == BrowserMode::Normal ==> {
                let at = old(self).cursor < old(self).visible@.len();
                let row = old(self).visible@[old(self).cursor as int];
                let rows = old(self).model.spec_rows();
                let folds = (opens(key) || closes(key)) && at;
                &&& quit == quits(key)
                &&& final(self).mode == (if key == BrowserKey::Char('/') { BrowserMode::Filter } else { BrowserMode::Normal })
                &&& final(self).filter_input@ == (if key == BrowserKey::Char('/') {
                    old(self).model.spec_filter()
                } else {
                    old(self).filter_input@
                })
                &&& final(self).cursor == (if moves_down(key) {
                    if old(self).cursor == usize::MAX { usize::MAX } else { (old(self).cursor + 1) as usize }
                } else if moves_up(key) {
                    if old(self).cursor == 0 { 0 } else { (old(self).cursor - 1) as usize }
                } else {
                    old(self).cursor
                })
                &&& final(self).detail_scroll == (if key == BrowserKey::PageDown {
                    if old(self).detail_scroll + DETAIL_PAGE > u16::MAX { u16::MAX } else { (old(self).detail_scroll + DETAIL_PAGE) as u16 }
                } else if key == BrowserKey::PageUp {
                    if old(self).detail_scroll < DETAIL_PAGE { 0 } else { (old(self).detail_scroll - DETAIL_PAGE) as u16 }
                } else {
                    old(self).detail_scroll
                })
                &&& final(self).model.spec_rows() == rows
                &&& final(self).model.spec_filter() == old(self).model.spec_filter()
                &&& final(self).model.spec_expanded() == (if opens(key) && at && row < rows.len() && rows[row as int].expandable {
                    old(self).model.spec_expanded().insert(row)
                } else if closes(key) && at {
                    old(self).model.spec_expanded().remove(row)
                } else {
                    old(self).model.spec_expanded()
                })
                &&& final(self).visible@ == (if folds { final(self).model.spec_visible() } else { old(self).visible@ })
            },
            old(self).mode == BrowserMode::Filter ==> {
                let ends = key == BrowserKey::Enter || key == BrowserKey::Esc;
                let typed = old(self).filter_input@;
                &&& !quit
                &&& final(self).mode == (if ends { BrowserMode::Normal } else { BrowserMode::Filter })
                &&& final(self).filter_input@ == (if key == BrowserKey::Esc {
                    Seq::<char>::empty()
                } else if key == BrowserKey::Backspace {
                    if typed.len() > 0 { typed.drop_last() } else { typed }
                } else if key is Char {
                    typed.push(key->Char_0)
                } else {
                    typed
                })
                &&& final(self).cursor == (if key == BrowserKey::Enter { 0 } else { old(self).cursor })
                &&& final(self).detail_scroll == old(self).detail_scroll
                &&& final(self).model.spec_rows() == old(self).model.spec_rows()
                &&& final(self).model.spec_expanded() == old(self).model.spec_expanded()
                &&& final(self).model.spec_filter() == (if key == BrowserKey::Enter {
                    typed
                } else if key == BrowserKey::Esc {
                    Seq::<char>::empty()
                } else {
                    old(self).model.spec_filter()
                })
                &&& final(self).visible@ == (if ends { final(self).model.spec_visible() } else { old(self).visible@ })
            },
    {
        match self.mode {
            BrowserMode::Normal => {
                match key {
                    BrowserKey::Char('q') | BrowserKey::Esc => {
                        return true;
                    },
                    BrowserKey::Char('j') | BrowserKey::Down => {
                        self.cursor = self.cursor.saturating_add(1);
                    },
                    BrowserKey::Char('k') | BrowserKey::Up => {
                        self.cursor = self.cursor.saturating_sub(1);
                    },
                    BrowserKey::Char('l') | BrowserKey::Right => {
                        if self.cursor < self.visible.len() {
                            let row = self.visible[self.cursor];
                            if row < self.model.row_count() {
                                self.model.expand(row);
                            }
                            self.visible = self.model.visible_rows();
                        }
                    },
                    BrowserKey::Char('h') | BrowserKey::Left => {
                        if self.cursor < self.visible.len() {
                            let row = self.visible[self.cursor];
                            self.model.collapse(row);
                            self.visible = self.model.visible_rows();
                        }
                    },
                    BrowserKey::PageDown => {
                        self.detail_scroll = self.detail_scroll.saturating_add(DETAIL_PAGE);
                    },
                    BrowserKey::PageUp => {
                        self.detail_scroll = self.detail_scroll.saturating_sub(DETAIL_PAGE);
                    },
                    BrowserKey::Char('/') => {
                        self.mode = BrowserMode::Filter;
                        self.filter_input = self.model.filter_text().clone();
                    },
                    _ => {},
                }
                false
            },
            BrowserMode::Filter => {
                match key {
                    BrowserKey::Enter => {
                        self.model.set_filter(self.filter_input.clone());
                        self.visible = self.model.visible_rows();
                        self.cursor = 0;
                        self.mode = BrowserMode::Normal;
                    },
                    BrowserKey::Esc => {
                        self.filter_input = String::new();
                        self.model.set_filter(String::new());
                        self.visible = self.model.visible_rows();
                        self.mode = BrowserMode::Normal;
                    },
                    BrowserKey::Backspace => {
                        drop_last_char(&mut self.filter_input);
                    },
                    BrowserKey::Char(c) => {
                        push_char(&mut self.filter_input, c);
                    },
                    _ => {},
                }
                false
            },
        }
    }
}

} // verus!

//! The bookmark overlay: a modal listing at the bottom of the terminal
//! that lets the user pick a bookmark or register a new one.
//!
//! The host starts a workflow with [`BMPopup::pick`] or [`BMPopup::add`],
//! draws what [`BMPopup::get_drawlist`] returns, delivers key events to
//! [`BMPopup::on_key`] one at a time and does what the returned
//! [`Action`] asks for. When the overlay is finished, the host reads the
//! result back with [`BMPopup::picked`] or [`BMPopup::added`].

use vstd::prelude::*;
use vstd::std_specs::iter::IteratorSpec;
use vstd::string::StringExecFns;
use crate::entries::{Entries, delete, distinct_keys, lookup, put};
use crate::fail::{HError, HResult};
use crate::persist::serialize;
use crate::store::Bookmarks;
use crate::term::{goto_sequence, goto_xy, reset, reset_sequence};
use crate::widget::{Action, ActionView, Coordinates, Key, WidgetCore};

verus! {

/// The key that dismisses the overlay. While a bookmark is picked it
/// accepts the offered path, and the overlay lists that path under it.
pub const SENTINEL: char = '`';

/// The workflow that the overlay is in.
#[derive(Debug, Clone, Copy, PartialEq, Eq, Structural)]
pub enum Mode {
    /// A bookmark is being picked.
    Pick,
    /// A bookmark is being registered.
    Add,
}

/// The state of the overlay.
pub struct Overlay {
    /// The geometry record that the overlay shares with its host.
    pub core: WidgetCore,
    /// The bookmarks, in the order in which they are listed.
    pub bookmarks: Entries,
    /// The path on offer: the current directory while a bookmark is
    /// picked, the path to bookmark while one is registered. None once it
    /// was consumed or the workflow was cancelled.
    pub pending: Option<Seq<char>>,
    pub mode: Mode,
}

/// `text` on exactly `width` columns: cut off where it is longer, filled
/// up with spaces on the right where it is shorter.
pub open spec fn fit(text: Seq<char>, width: nat) -> Seq<char> {
    Seq::new(
        width,
        |i: int|
            if i < text.len() {
                text[i]
            } else {
                ' '
            },
    )
}

/// One line of the listing on a terminal `width` columns wide: the cursor
/// is sent to the first column of `row`, styling is reset, and the key, a
/// colon and a space are followed by the path on `width - 4` columns.
pub open spec fn line(width: u16, row: u16, key: char, path: Seq<char>) -> Seq<char> {
    goto_sequence(1, row) + reset_sequence() + seq![key, ':', ' '] + fit(path, (width - 4) as nat)
}

/// The lines for `entries` on consecutive rows from `first_row` on.
pub open spec fn rows(width: u16, first_row: int, entries: Entries) -> Seq<char>
    decreases entries.len(),
{
    if entries.len() == 0 {
        Seq::empty()
    } else {
        rows(width, first_row, entries.drop_last()) + line(
            width,
            (first_row + entries.len() - 1) as u16,
            entries.last().0,
            entries.last().1,
        )
    }
}

/// What the overlay draws: while a bookmark is picked the path on offer
/// under the sentinel key on the overlay's top row, and in either mode
/// the bookmarks on the rows below that one. While a bookmark is picked
/// there is nothing to draw without a path on offer.
pub open spec fn drawlist(state: Overlay) -> HResult<Seq<char>> {
    let width = state.core.term_xsize;
    let top = state.core.coordinates.ypos;
    let listing = rows(width, top + 1, state.bookmarks);
    match state.mode {
        Mode::Add => Ok(listing),
        Mode::Pick => match state.pending {
            Some(path) => Ok(line(width, top, SENTINEL, path) + listing),
            None => Err(HError::NotFound),
        },
    }
}

/// The overlay lists `bookmarks` bookmarks and one more row, and fits on
/// the terminal.
pub open spec fn fits(core: WidgetCore, bookmarks: nat) -> bool {
    bookmarks + 1 <= core.term_ysize
}

/// The geometry of an overlay with `bookmarks` bookmarks: as wide as the
/// terminal, one row per bookmark and one more, at the terminal's bottom.
pub open spec fn placed(core: WidgetCore, bookmarks: nat) -> WidgetCore {
    WidgetCore {
        coordinates: Coordinates {
            xsize: core.term_xsize,
            ysize: (bookmarks + 1) as u16,
            xpos: 1,
            ypos: (core.term_ysize - (bookmarks + 1)) as u16,
        },
        ..core
    }
}

/// The state after a key event, and what the host is asked to do.
///
/// Control-c clears the path on offer and finishes. The sentinel key
/// finishes and leaves the state alone. Another character finishes with
/// the path of its bookmark on offer while a bookmark is picked, and
/// changes nothing there if it is no bookmark's key; while a bookmark is
/// registered it consumes the path on offer, binds the character to it
/// and asks for the file to be written. Alt with a character removes that
/// character's bookmark. Every other key is ignored.
pub open spec fn after_key(state: Overlay, key: Key) -> (Overlay, HResult<ActionView>) {
    match key {
        Key::Ctrl(c) => if c == 'c' {
            (Overlay { pending: None, ..state }, Ok(ActionView::Finished))
        } else {
            (state, Ok(ActionView::Continue))
        },
        Key::Char(c) => if c == SENTINEL {
            (state, Ok(ActionView::Finished))
        } else {
            match state.mode {
                Mode::Add => match state.pending {
                    Some(path) => {
                        let bookmarks = put(state.bookmarks, c, path);
                        (
                            Overlay { bookmarks, pending: None, ..state },
                            Ok(ActionView::Write(serialize(bookmarks))),
                        )
                    },
                    None => (state, Err(HError::NotFound)),
                },
                Mode::Pick => match lookup(state.bookmarks, c) {
                    Some(path) => (
                        Overlay { pending: Some(path), ..state },
                        Ok(ActionView::Finished),
                    ),
                    None => (state, Ok(ActionView::Continue)),
                },
            }
        },
        Key::Alt(c) => (
            Overlay { bookmarks: delete(state.bookmarks, c), ..state },
            Ok(ActionView::Continue),
        ),
        Key::Other => (state, Ok(ActionView::Continue)),
    }
}

/// The state after the host has reported how writing the file went, and
/// what the host is asked to do: a bookmark that was written is
/// registered, and the overlay finishes; a failure is handed on.
pub open spec fn after_write(state: Overlay, written: HResult<()>) -> (
    Overlay,
    HResult<ActionView>,
) {
    match written {
        Ok(_) => (Overlay { mode: Mode::Pick, ..state }, Ok(ActionView::Finished)),
        Err(e) => (state, Err(e)),
    }
}

/// What a result holds, where it holds an action.
pub open spec fn action_view(action: HResult<Action>) -> HResult<ActionView> {
    match action {
        Ok(action) => Ok(action@),
        Err(e) => Err(e),
    }
}

/// What a result holds, where it holds a string.
pub open spec fn text_view(text: HResult<String>) -> HResult<Seq<char>> {
    match text {
        Ok(text) => Ok(text@),
        Err(e) => Err(e),
    }
}

/// The overlay.
pub struct BMPopup {
    core: WidgetCore,
    bookmarks: Bookmarks,
    bookmark_path: Option<String>,
    mode: Mode,
}

impl View for BMPopup {
    type V = Overlay;

    closed spec fn view(&self) -> Overlay {
        Overlay {
            core: self.core,
            bookmarks: self.bookmarks.entries(),
            pending: match self.bookmark_path {
                Some(path) => Some(path@),
                None => None,
            },
            mode: self.mode,
        }
    }
}

impl BMPopup {
    /// An overlay for the bookmarks of the persistence file, where `file`
    /// is what reading that file gave: a file that could not be read
    /// holds no bookmarks.
    pub fn new(core: &WidgetCore, file: HResult<String>) -> (popup: BMPopup)
        ensures
            popup@ == (Overlay {
                core: *core,
                bookmarks: match file {
                    Ok(text) => crate::persist::parse(text@),
                    Err(_) => Seq::empty(),
                },
                pending: None,
                mode: Mode::Pick,
            }),
            distinct_keys(popup@.bookmarks),
    {
        BMPopup {
            core: *core,
            bookmarks: Bookmarks::new(file),
            bookmark_path: None,
            mode: Mode::Pick,
        }
    }

    /// Starts picking a bookmark, with `cwd` on offer.
    pub fn pick(&mut self, cwd: String)
        requires
            fits(old(self)@.core, old(self)@.bookmarks.len()),
        ensures
            final(self)@ == (Overlay {
                core: placed(old(self)@.core, old(self)@.bookmarks.len()),
                pending: Some(cwd@),
                mode: Mode::Pick,
                ..old(self)@
            }),
    {
        self.mode = Mode::Pick;
        self.bookmark_path = Some(cwd);
        self.refresh();
    }

    /// The path that was picked, once the overlay has finished: the path
    /// on offer, or `Cancelled` where there is none. The path is taken
    /// out of the overlay.
    pub fn picked(&mut self) -> (path: HResult<String>)
        ensures
            text_view(path) == match old(self)@.pending {
                Some(path) => Ok::<Seq<char>, HError>(path),
                None => Err(HError::Cancelled),
            },
            final(self)@ == (Overlay { pending: None, ..old(self)@ }),
    {
        match self.bookmark_path.take() {
            Some(path) => Ok(path),
            None => Err(HError::Cancelled),
        }
    }

    /// Starts registering a bookmark for `path`.
    pub fn add(&mut self, path: &str)
        requires
            fits(old(self)@.core, old(self)@.bookmarks.len()),
        ensures
            final(self)@ == (Overlay {
                core: placed(old(self)@.core, old(self)@.bookmarks.len()),
                pending: Some(path@),
                mode: Mode::Add,
                ..old(self)@
            }),
    {
        self.mode = Mode::Add;
        self.bookmark_path = Some(String::from_str(path));
        self.refresh();
    }

    /// Whether a bookmark was registered, once the overlay has finished:
    /// `Cancelled` where the overlay is still registering one. The
    /// overlay is left without a path on offer and ready to pick.
    pub fn added(&mut self) -> (registered: HResult<()>)
        ensures
            registered == match old(self)@.mode {
                Mode::Pick => Ok::<(), HError>(()),
                Mode::Add => Err(HError::Cancelled),
            },
            final(self)@ == (Overlay { pending: None, mode: Mode::Pick, ..old(self)@ }),
    {
        let registered = match self.mode {
            Mode::Pick => Ok(()),
            Mode::Add => Err(HError::Cancelled),
        };
        self.bookmark_path = None;
        self.mode = Mode::Pick;
        registered
    }

    /// One line of the listing, for the row `n` of the terminal.
    pub fn render_line(&self, n: u16, key: &char, path: &str) -> (rendered: String)
        requires
            self@.core.term_xsize >= 4,
        ensures
            rendered@ == line(self@.core.term_xsize, n, *key, path@),
    {
        let padding: u16 = self.core.term_xsize - 4;
        let mut rendered = goto_xy(1, n);
        rendered.append(reset().as_str());
        rendered.push(*key);
        rendered.push(':');
        rendered.push(' ');
        let ghost head = rendered@;
        let mut chars = path.chars();
        let mut column: u16 = 0;
        proof {
            broadcast use vstd::string::group_string_axioms;
            assert(rendered@ =~= head + fit(path@, 0));
            assert(chars.remaining() =~= path@.skip(0));
        }
        while column < padding
            invariant
                column <= padding,
                chars.obeys_prophetic_iter_laws(),
                chars.remaining() == if column < path@.len() {
                    path@.skip(column as int)
                } else {
                    Seq::empty()
                },
                rendered@ == head + fit(path@, column as nat),
            decreases padding - column,
        {
            let ghost before = rendered@;
            let next = chars.next();
            proof {
                broadcast use vstd::string::group_string_axioms;
            }
            match next {
                Some(c) => rendered.push(c),
                None => rendered.push(' '),
            }
            proof {
                assert(fit(path@, (column + 1) as nat) =~= fit(path@, column as nat).push(
                    fit(path@, (column + 1) as nat)[column as int],
                ));
                if column + 1 < path@.len() {
                    assert(path@.skip(column as int).drop_first() =~= path@.skip(column + 1));
                } else if column < path@.len() {
                    assert(path@.skip(column as int).drop_first() =~= Seq::empty());
                }
            }
            column += 1;
        }
        rendered
    }

    /// The geometry record.
    pub fn get_core(&self) -> (core: &WidgetCore)
        ensures
            *core == self@.core,
    {
        &self.core
    }

    /// The geometry record, for the host to change.
    pub fn get_core_mut(&mut self) -> (core: &mut WidgetCore)
        ensures
            *core == old(self)@.core,
            final(self)@ == (Overlay { core: *final(core), ..old(self)@ }),
    {
        &mut self.core
    }

    /// The bookmarks.
    pub fn bookmarks(&self) -> (bookmarks: &Bookmarks)
        ensures
            bookmarks.entries() == self@.bookmarks,
    {
        &self.bookmarks
    }

    /// The workflow that the overlay is in.
    pub fn mode(&self) -> (mode: Mode)
        ensures
            mode == self@.mode,
    {
        self.mode
    }

    /// Whether the overlay fits on the terminal, as `refresh` needs it.
    pub fn fits_terminal(&self) -> (fitting: bool)
        ensures
            fitting == fits(self@.core, self@.bookmarks.len()),
    {
        self.bookmarks.len() < self.core.term_ysize as usize
    }

    /// Places the overlay at the bottom of the terminal, with a row for
    /// each bookmark and one more.
    pub fn refresh(&mut self)
        requires
            fits(old(self)@.core, old(self)@.bookmarks.len()),
        ensures
            final(self)@ == (Overlay {
                core: placed(old(self)@.core, old(self)@.bookmarks.len()),
                ..old(self)@
            }),
    {
        let tysize: u16 = self.core.term_ysize;
        let txsize: u16 = self.core.term_xsize;
        let len: u16 = self.bookmarks.len() as u16;
        let ysize: u16 = tysize - (len + 1);
        self.core.coordinates.set_position(1, ysize);
        self.core.coordinates.set_size(txsize, len + 1);
    }

    /// What the host has to draw.
    pub fn get_drawlist(&self) -> (list: HResult<String>)
        requires
            self@.core.term_xsize >= 4,
            self@.core.coordinates.ypos + self@.bookmarks.len() <= u16::MAX,
        ensures
            text_view(list) == drawlist(self@),
    {
        let ypos: u16 = self.core.coordinates.ypos();
        let mut list = String::new();
        match self.mode {
            Mode::Add => {},
            Mode::Pick => {
                match &self.bookmark_path {
                    Some(cwd) => {
                        list.append(self.render_line(ypos, &SENTINEL, cwd.as_str()).as_str());
                    },
                    None => {
                        return Err(HError::NotFound);
                    },
                }
            },
        }
        let ghost head = list@;
        let ghost width = self.core.term_xsize;
        let len: usize = self.bookmarks.len();
        let mut i: usize = 0;
        proof {
            assert(self@.bookmarks.take(0) =~= Seq::empty());
            assert(list@ =~= head + rows(width, ypos + 1, self@.bookmarks.take(0)));
        }
        while i < len
            invariant
                i <= len,
                len == self@.bookmarks.len(),
                width == self@.core.term_xsize,
                width >= 4,
                ypos + len <= u16::MAX,
                list@ == head + rows(width, ypos + 1, self@.bookmarks.take(i as int)),
            decreases len - i,
        {
            let ghost before = list@;
            let entry = self.bookmarks.entry(i);
            let row: u16 = i as u16 + ypos + 1;
            list.append(self.render_line(row, &entry.0, entry.1.as_str()).as_str());
            proof {
                let listed = self@.bookmarks.take(i + 1);
                assert(listed.drop_last() =~= self@.bookmarks.take(i as int));
                assert(listed.last() == self@.bookmarks[i as int]);
                assert(list@ =~= head + rows(width, ypos + 1, listed));
            }
            i += 1;
        }
        proof {
            assert(self@.bookmarks.take(i as int) =~= self@.bookmarks);
        }
        Ok(list)
    }

    /// Takes a key event, and tells the host what to do.
    pub fn on_key(&mut self, key: Key) -> (action: HResult<Action>)
        ensures
            (final(self)@, action_view(action)) == after_key(old(self)@, key),
            distinct_keys(old(self)@.bookmarks) ==> distinct_keys(final(self)@.bookmarks),
    {
        match key {
            Key::Ctrl(c) => {
                if c == 'c' {
                    self.bookmark_path = None;
                    Ok(Action::Finished)
                } else {
                    Ok(Action::Continue)
                }
            },
            Key::Char(c) => {
                if c == SENTINEL {
                    Ok(Action::Finished)
                } else {
                    match self.mode {
                        Mode::Add => match self.bookmark_path.take() {
                            Some(path) => {
                                let content = self.bookmarks.add(c, path.as_str());
                                Ok(Action::Write(content))
                            },
                            None => Err(HError::NotFound),
                        },
                        Mode::Pick => match self.bookmarks.get(c) {
                            Ok(path) => {
                                self.bookmark_path = Some(path.clone());
                                Ok(Action::Finished)
                            },
                            Err(_) => Ok(Action::Continue),
                        },
                    }
                }
            },
            Key::Alt(c) => {
                self.bookmarks.remove(c);
                Ok(Action::Continue)
            },
            Key::Other => Ok(Action::Continue),
        }
    }

    /// Takes the host's report of how writing the persistence file went,
    /// and tells the host what to do.
    pub fn written(&mut self, written: HResult<()>) -> (action: HResult<Action>)
        ensures
            (final(self)@, action_view(action)) == after_write(old(self)@, written),
    {
        match written {
            Ok(_) => {
                self.mode = Mode::Pick;
                Ok(Action::Finished)
            },
            Err(e) => Err(e),
        }
    }
}

} // verus!

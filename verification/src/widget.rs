//! What an overlay shares with the host that displays it: the geometry
//! record, the key events that the host delivers and the actions that it
//! is asked for.

use vstd::prelude::*;

verus! {

/// The part of the screen that a widget occupies, in one-based terminal
/// cells.
#[derive(Debug, Clone, Copy, PartialEq, Eq, Structural)]
pub struct Coordinates {
    pub xsize: u16,
    pub ysize: u16,
    pub xpos: u16,
    pub ypos: u16,
}

impl Coordinates {
    /// One cell in the top left corner.
    pub fn new() -> (coordinates: Coordinates)
        ensures
            coordinates == (Coordinates { xsize: 1, ysize: 1, xpos: 1, ypos: 1 }),
    {
        Coordinates { xsize: 1, ysize: 1, xpos: 1, ypos: 1 }
    }

    pub fn set_size(&mut self, xsize: u16, ysize: u16)
        ensures
            *final(self) == (Coordinates { xsize, ysize, ..*old(self) }),
    {
        self.xsize = xsize;
        self.ysize = ysize;
    }

    pub fn set_position(&mut self, xpos: u16, ypos: u16)
        ensures
            *final(self) == (Coordinates { xpos, ypos, ..*old(self) }),
    {
        self.xpos = xpos;
        self.ypos = ypos;
    }

    pub fn xsize(&self) -> (xsize: u16)
        ensures
            xsize == self.xsize,
    {
        self.xsize
    }

    pub fn ysize(&self) -> (ysize: u16)
        ensures
            ysize == self.ysize,
    {
        self.ysize
    }

    pub fn xpos(&self) -> (xpos: u16)
        ensures
            xpos == self.xpos,
    {
        self.xpos
    }

    pub fn ypos(&self) -> (ypos: u16)
        ensures
            ypos == self.ypos,
    {
        self.ypos
    }
}

/// The state that the host keeps for every widget: where the widget is,
/// and how large the terminal was when the host last measured it.
#[derive(Debug, Clone, Copy, PartialEq, Eq, Structural)]
pub struct WidgetCore {
    pub coordinates: Coordinates,
    pub term_xsize: u16,
    pub term_ysize: u16,
}

impl WidgetCore {
    /// The core of a widget on a terminal of the given size.
    pub fn new(term_xsize: u16, term_ysize: u16) -> (core: WidgetCore)
        ensures
            core == (WidgetCore {
                coordinates: Coordinates { xsize: 1, ysize: 1, xpos: 1, ypos: 1 },
                term_xsize,
                term_ysize,
            }),
    {
        WidgetCore { coordinates: Coordinates::new(), term_xsize, term_ysize }
    }
}

/// A key event, as far as the overlay tells key events apart.
#[derive(Debug, Clone, Copy, PartialEq, Eq, Structural)]
pub enum Key {
    /// A character.
    Char(char),
    /// A character with the alt modifier.
    Alt(char),
    /// A character with the control modifier.
    Ctrl(char),
    /// Any other key.
    Other,
}

/// What the host has to do after it has delivered a key event.
#[derive(Debug, PartialEq, Eq)]
pub enum Action {
    /// Keep the overlay open and deliver the next key event.
    Continue,
    /// Close the overlay and read the result back.
    Finished,
    /// Overwrite the persistence file with this content and report how
    /// that went.
    Write(String),
}

/// An [`Action`] with the content to write as a sequence of characters.
pub enum ActionView {
    Continue,
    Finished,
    Write(Seq<char>),
}

impl View for Action {
    type V = ActionView;

    open spec fn view(&self) -> ActionView {
        match self {
            Action::Continue => ActionView::Continue,
            Action::Finished => ActionView::Finished,
            Action::Write(content) => ActionView::Write(content@),
        }
    }
}

} // verus!

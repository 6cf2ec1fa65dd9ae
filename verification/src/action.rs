//! The vocabulary of player actions.

use vstd::prelude::*;

verus! {

/// The view a player is looking at.
#[derive(Clone, Copy, Debug, PartialEq, Eq, Structural)]
pub enum Page {
    Play,
    Ranking,
}

impl Page {
    /// The page's name as shown in the header.
    pub fn label(&self) -> (text: &'static str)
        ensures
            text@ == self.label_text(),
    {
        match self {
            Page::Play => "Play",
            Page::Ranking => "Ranking",
        }
    }

    /// The characters of the page's name.
    pub open spec fn label_text(&self) -> Seq<char> {
        match self {
            Page::Play => "Play"@,
            Page::Ranking => "Ranking"@,
        }
    }
}

/// One thing a player can do.
#[derive(Clone, Debug, PartialEq, Eq)]
pub enum Msg {
    /// The tile with this id was clicked.
    Clicked(usize),
    /// Switch to the play page.
    ClickedPlay,
    /// Switch to the ranking page.
    ClickedRanking,
    /// Take back the last move. No behaviour is defined for it yet.
    ClickedRollBack,
    /// Submit the score. No behaviour is defined for it yet.
    ClickedSendButton,
    /// The player's name was edited to this text.
    ChangedTextArea(String),
}

} // verus!

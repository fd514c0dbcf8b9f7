//! What the panel shows: items in sections, and what a click on one means.

use vstd::prelude::*;

verus! {

/// What a click on a tile means right now.
#[derive(Debug, Clone, Copy, PartialEq, Eq, Structural)]
pub enum Mode {
    /// No mode: clicking goes to what was clicked.
    Grid,
    /// The bento is being rearranged.
    Layout,
    /// The centre block is being filled and emptied.
    Favorites,
    /// Clicking picks a window to move.
    Move,
    /// Clicking closes things instead of switching to them.
    Close,
    /// Every app there is, rather than a handful.
    AllApps,
    /// Every bookmark there is.
    AllBookmarks,
}

impl Mode {
    pub open spec fn spec_takes_clicks(self) -> bool {
        self == Mode::Layout || self == Mode::Favorites || self == Mode::Close
    }

    /// Whether the mode takes the click off the grid. The others leave it
    /// alone: a click on a tile means what it always means.
    #[verifier::when_used_as_spec(spec_takes_clicks)]
    pub fn takes_clicks(self) -> (yes: bool)
        ensures
            yes == self.spec_takes_clicks(),
    {
        matches!(self, Mode::Layout | Mode::Favorites | Mode::Close)
    }
}

/// Where a tile came from.
#[derive(Debug, Clone, Copy, PartialEq, Eq, Structural)]
pub enum Source {
    Manual,
    Taskbar,
    Windows,
    Extra,
    Running,
    Tabs,
    Bookmarks,
    Center,
    AllApps,
    AllBookmarks,
    Moves,
    Modes,
}

/// What kind of thing a tile stands for.
#[derive(Debug, Clone, Copy, PartialEq, Eq, Structural)]
pub enum Kind {
    App,
    Folder,
    File,
    Window,
    Tab,
    Link,
    Action,
}

/// Where a window is sent.
#[derive(Debug, Clone, Copy, PartialEq, Eq, Structural)]
pub enum Move {
    Left,
    Right,
    Up,
    Down,
    ScreenLeft,
    ScreenRight,
}

/// What a click on a tile reaches.
#[derive(Debug, Clone, PartialEq, Eq)]
pub enum Target {
    /// A live window, by its handle.
    Window(u64),
    /// Something the shell opens, by its parsing name.
    Shell(String),
    Tab,
    NewTab,
    Arrange(Move),
    /// The latch that holds the panel open.
    Stay,
    /// An empty square of the centre block.
    Slot,
    /// The square that turns a mode on and off.
    Mode(Mode),
}

impl Target {
    pub fn is_slot(&self) -> (yes: bool)
        ensures
            yes == (self is Slot),
    {
        matches!(self, Target::Slot)
    }

    pub fn is_mode(&self) -> (yes: bool)
        ensures
            yes == (self is Mode),
    {
        matches!(self, Target::Mode(_))
    }

    pub open spec fn handle(&self) -> Option<u64> {
        match self {
            Target::Window(handle) => Some(*handle),
            _ => None,
        }
    }

    pub fn window(&self) -> (handle: Option<u64>)
        ensures
            handle == self.handle(),
    {
        match self {
            Target::Window(handle) => Some(*handle),
            _ => None,
        }
    }
}

/// One tile's worth of something.
#[derive(Debug, Clone, PartialEq, Eq)]
pub struct Item {
    pub id: String,
    pub title: String,
    pub detail: String,
    pub kind: Kind,
    pub target: Target,
    pub origin: Source,
    /// Which run of the section the item belongs to.
    pub group: usize,
    /// The app behind the item, by the name both it and its windows go by.
    pub app: Option<String>,
    /// What the icon is read from: an executable, a folder or a file.
    pub icon_source: Option<String>,
    /// The address behind the item, where it has one.
    pub link: Option<String>,
    /// The list of the centre block an item of its kind is kept in.
    pub half: Half,
    pub running: bool,
}

/// A section as it is shown.
#[derive(Debug, Clone, PartialEq, Eq)]
pub struct Section {
    pub title: String,
    pub items: Vec<Item>,
    /// How many items there are to show, whatever is shown of them.
    pub total: usize,
    pub columns: usize,
    /// Where the section sits in the centre block, if it is half of it.
    pub center: Option<usize>,
    /// The section's place in the config.
    pub slot: usize,
    /// The colour of the section's ring, when it names one.
    pub edge: Option<String>,
    /// The colour of the plate behind the section's box, when it asks for one.
    pub color: Option<String>,
}

/// Which list of the centre block something belongs in.
#[derive(Debug, Clone, Copy, PartialEq, Eq, Structural)]
pub enum Half {
    Apps,
    Sites,
}

impl Half {
    pub open spec fn spec_index(self) -> usize {
        match self {
            Half::Apps => 0,
            Half::Sites => 1,
        }
    }

    #[verifier::when_used_as_spec(spec_index)]
    pub fn index(self) -> (index: usize)
        ensures
            index == self.spec_index(),
            index < 2,
    {
        match self {
            Half::Apps => 0,
            Half::Sites => 1,
        }
    }
}

} // verus!

//! What the panel is set to.

use vstd::prelude::*;
use crate::geometry::PX;

verus! {

/// The sizes and shape of the grid. Lengths are in 64ths of a logical pixel.
#[derive(Debug, Clone, Copy, PartialEq, Eq, Structural)]
pub struct GridConfig {
    pub tile_width: i64,
    pub tile_height: i64,
    /// The strip of a tile its label gets.
    pub label_height: i64,
    pub gap: i64,
    pub padding: i64,
    /// The most of the work area the panel takes, in millionths.
    pub max_screen_fraction: u32,
    /// Hard cap on columns. 0 is no cap beyond what fits the screen.
    pub max_columns: usize,
    pub header_height: i64,
    pub header_gap: i64,
    pub section_gap: i64,
    pub search_height: i64,
    pub corner_radius: i64,
    /// Whether tiles draw their second line.
    pub show_detail: bool,
}

/// What the centre block holds.
#[derive(Debug, Clone, Copy, PartialEq, Eq, Structural)]
pub enum Contents {
    /// Apps and sites, kept apart.
    Split,
    /// Both lists in one block.
    One,
    Apps,
    Sites,
}

/// The shape of the centre block, and what it holds.
#[derive(Debug, Clone, Copy, PartialEq, Eq, Structural)]
pub struct Center {
    /// None is a block that is off.
    pub rows: usize,
    pub columns: usize,
    pub contents: Contents,
    /// The rows the block had when it was switched off. 0 is not known.
    pub kept_rows: usize,
}

/// The most tiles the block may take either way.
pub const BLOCK_MOST: usize = 4;

/// The rows of a block nobody has shaped.
pub const BLOCK_ROWS: usize = 3;

impl Center {
    pub open spec fn spec_on(&self) -> bool {
        self.rows > 0 && self.columns > 0
    }

    /// The block as it was given another size. One that loses its rows keeps
    /// them in mind.
    pub open spec fn sized(self, columns: usize, rows: usize) -> Center {
        Center {
            columns,
            rows,
            kept_rows: if rows == 0 && self.rows > 0 {
                self.rows
            } else {
                self.kept_rows
            },
            ..self
        }
    }

    /// The block as it was read back, after it was something else: what it had
    /// in mind is still in mind, unless it was read back too.
    pub open spec fn read_after(self, before: Center) -> Center {
        if self.kept_rows > 0 {
            self
        } else {
            Center { kept_rows: before.sized(self.columns, self.rows).kept_rows, ..self }
        }
    }

    /// Keep in mind what the block had before it was read back. A file that
    /// says how many rows there are has no word for how many there were.
    pub fn remembering(self, before: Center) -> (center: Center)
        ensures
            center == self.read_after(before),
    {
        if self.kept_rows > 0 {
            return self;
        }
        let kept_rows: usize = if self.rows == 0 && before.rows > 0 {
            before.rows
        } else {
            before.kept_rows
        };
        Center { rows: self.rows, columns: self.columns, contents: self.contents, kept_rows }
    }

    /// Whether there is a block at all.
    #[verifier::when_used_as_spec(spec_on)]
    pub fn on(&self) -> (on: bool)
        ensures
            on == self.spec_on(),
    {
        self.rows > 0 && self.columns > 0
    }
}

#[derive(Debug, Clone, Copy, PartialEq, Eq, Structural)]
pub struct Browser {
    pub enabled: bool,
}

/// One box, as the config has it.
#[derive(Debug, Clone, PartialEq, Eq)]
pub struct SectionConfig {
    pub title: String,
    /// Where the box goes.
    pub side: Option<String>,
    /// Tile columns inside the box. 0 fits as many as its rectangle takes.
    pub columns: usize,
    /// The most tiles the box shows. 0 is all of them.
    pub max_items: usize,
}

#[derive(Debug, Clone, PartialEq, Eq)]
pub struct Config {
    pub hotkey: String,
    pub grid: GridConfig,
    pub center: Center,
    pub browser: Browser,
    pub sections: Vec<SectionConfig>,
    /// Say what would be done instead of doing it.
    pub dry_run: bool,
}

/// One thing a click writes to the config.
#[derive(Debug, Clone, Copy, PartialEq, Eq, Structural)]
pub enum Change {
    Tiles { width: i64, height: i64, label: i64 },
    ShowDetail(bool),
    MaxColumns(usize),
    CenterContents(Contents),
    CenterSize { columns: usize, rows: usize },
    Browser(bool),
}

/// The grid nobody has changed.
pub open spec fn stock_grid() -> GridConfig {
    GridConfig {
        tile_width: (140 * PX) as i64,
        tile_height: (100 * PX) as i64,
        label_height: (24 * PX) as i64,
        gap: (10 * PX) as i64,
        padding: (18 * PX) as i64,
        max_screen_fraction: 920_000,
        max_columns: 9,
        header_height: (16 * PX) as i64,
        header_gap: (14 * PX) as i64,
        section_gap: 0,
        search_height: (44 * PX) as i64,
        corner_radius: (8 * PX) as i64,
        show_detail: false,
    }
}

/// The centre block nobody has changed.
pub open spec fn stock_center() -> Center {
    Center { rows: BLOCK_ROWS, columns: 3, contents: Contents::Split, kept_rows: 0 }
}

/// A box of the config as a value: its title, its side, its columns and the
/// most tiles it shows.
#[verifier::ext_equal]
pub struct BoxView {
    pub title: Seq<char>,
    pub side: Option<Seq<char>>,
    pub columns: usize,
    pub max_items: usize,
}

impl View for SectionConfig {
    type V = BoxView;

    open spec fn view(&self) -> BoxView {
        BoxView {
            title: self.title@,
            side: match self.side {
                Some(side) => Some(side@),
                None => None,
            },
            columns: self.columns,
            max_items: self.max_items,
        }
    }
}

/// A list of boxes, each as a value.
pub open spec fn box_views(sections: Seq<SectionConfig>) -> Seq<BoxView> {
    sections.map_values(|section: SectionConfig| section@)
}

/// The boxes of a panel nobody has changed: what is running down the left, what
/// is in the browser down the right.
pub open spec fn stock_boxes() -> Seq<BoxView> {
    seq![
        BoxView { title: "Pinned"@, side: Some("left"@), columns: 0, max_items: 0 },
        BoxView { title: "Windows"@, side: Some("left"@), columns: 0, max_items: 0 },
        BoxView { title: "Bookmarks"@, side: Some("right"@), columns: 0, max_items: 0 },
        BoxView { title: "Tabs"@, side: Some("right"@), columns: 0, max_items: 0 },
    ]
}

fn stock_box(title: &str, side: &str) -> (section: SectionConfig)
    ensures
        section@ == (BoxView {
            title: title@,
            side: Some(side@),
            columns: 0,
            max_items: 0,
        }),
{
    SectionConfig {
        title: title.to_owned(),
        side: Some(side.to_owned()),
        columns: 0,
        max_items: 0,
    }
}

impl Default for Config {
    fn default() -> (config: Config)
        ensures
            config.grid == stock_grid(),
            config.center == stock_center(),
            config.browser == (Browser { enabled: false }),
            config.hotkey@ == "Alt+`"@,
            box_views(config.sections@) == stock_boxes(),
            !config.dry_run,
    {
        let mut sections: Vec<SectionConfig> = Vec::new();
        sections.push(stock_box("Pinned", "left"));
        sections.push(stock_box("Windows", "left"));
        sections.push(stock_box("Bookmarks", "right"));
        sections.push(stock_box("Tabs", "right"));
        assert(box_views(sections@) =~= stock_boxes());
        Config {
            hotkey: "Alt+`".to_owned(),
            grid: GridConfig {
                tile_width: 140 * PX,
                tile_height: 100 * PX,
                label_height: 24 * PX,
                gap: 10 * PX,
                padding: 18 * PX,
                max_screen_fraction: 920_000,
                max_columns: 9,
                header_height: 16 * PX,
                header_gap: 14 * PX,
                section_gap: 0,
                search_height: 44 * PX,
                corner_radius: 8 * PX,
                show_detail: false,
            },
            center: Center { rows: BLOCK_ROWS, columns: 3, contents: Contents::Split, kept_rows: 0 },
            browser: Browser { enabled: false },
            sections,
            dry_run: false,
        }
    }
}

} // verus!

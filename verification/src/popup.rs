//! The menu a right click opens.

use vstd::prelude::*;
use crate::answers::PopupChoice;
use crate::drag;
use crate::drag::find_owner;
use crate::model::{Item, Source, Target};
use crate::scene::Scene;
use crate::tiles;
use crate::tiles::removable;

verus! {

/// One line of the menu.
pub struct Entry {
    pub choice: PopupChoice,
    pub label: String,
}

/// A line of the menu as a value: what it picks, and what it says. `None` is a
/// rule between two parts.
pub open spec fn lines(entries: Seq<Option<Entry>>) -> Seq<Option<(PopupChoice, Seq<char>)>> {
    entries.map_values(
        |entry: Option<Entry>|
            match entry {
                Some(entry) => Some((entry.choice, entry.label@)),
                None => None,
            },
    )
}

/// What adding a tile is called: the box it will land in, named where it is
/// known and has a name.
pub open spec fn add_words(destination: Option<Seq<char>>) -> Seq<char> {
    match destination {
        Some(title) => if title.len() > 0 {
            "Add to "@ + title
        } else {
            "Add this app"@
        },
        None => "Add this app"@,
    }
}

/// What adding a tile is called.
pub fn add_label(destination: Option<&str>) -> (label: String)
    ensures
        label@ == add_words(
            match destination {
                Some(title) => Some(title@),
                None => None,
            },
        ),
{
    match destination {
        Some(title) => if title.is_empty() {
            "Add this app".to_owned()
        } else {
            let mut label = "Add to ".to_owned();
            label.append(title);
            label
        },
        None => "Add this app".to_owned(),
    }
}

/// What taking a pin away is called: the box it is actually in.
pub open spec fn remove_words(scene: Scene, tile: usize) -> Seq<char> {
    match drag::owner_from(scene.layout, tile as int, 0) {
        Some(band) => {
            let section = scene.layout.bands@[band].section as int;
            if section < scene.board.sections@.len() && scene.board.sections@[section].title@.len()
                > 0 {
                "Remove from "@ + scene.board.sections@[section].title@
            } else {
                "Remove"@
            }
        },
        None => "Remove"@,
    }
}

fn remove_label(scene: &Scene, tile: usize) -> (label: String)
    requires
        scene.wf(),
    ensures
        label@ == remove_words(*scene, tile),
{
    if let Some(band) = find_owner(&scene.layout, tile) {
        let section: usize = scene.layout.bands[band].section;
        if section < scene.board.sections.len() {
            let title = scene.board.sections[section].title.as_str();
            if !title.is_empty() {
                let mut label = "Remove from ".to_owned();
                label.append(title);
                return label;
            }
        }
    }
    "Remove".to_owned()
}

/// The line a tile's own pin has: adding the app behind a window, and taking a
/// pin of the panel's own away. Fixed tiles have neither.
pub open spec fn pin_lines(
    scene: Scene,
    tile: usize,
    destination: Option<Seq<char>>,
) -> Seq<Option<(PopupChoice, Seq<char>)>> {
    let item = scene.board.tile(tile as int);
    match item.target {
        Target::Window(_) => if item.icon_source is Some {
            seq![Some((PopupChoice::PinApp, add_words(destination)))]
        } else {
            Seq::empty()
        },
        Target::Shell(_) => if tiles::is_removable(scene.board, tile) {
            seq![Some((PopupChoice::Unpin, remove_words(scene, tile)))]
        } else {
            Seq::empty()
        },
        _ => Seq::empty(),
    }
}

/// The line the centre block has, as a second path to the mode.
pub open spec fn center_lines(item: Item) -> Seq<Option<(PopupChoice, Seq<char>)>> {
    if item.center_name() is None {
        Seq::empty()
    } else if item.origin == Source::Center {
        seq![Some((PopupChoice::Uncenter, "Remove from Center"@))]
    } else {
        seq![Some((PopupChoice::Center, "Add to Center"@))]
    }
}

/// The lines a tile has, with a rule under them when there are any.
pub open spec fn tile_lines(
    scene: Scene,
    tile: usize,
    destination: Option<Seq<char>>,
    locatable: bool,
) -> Seq<Option<(PopupChoice, Seq<char>)>> {
    let own = pin_lines(scene, tile, destination) + center_lines(scene.board.tile(tile as int)) + (
    if locatable {
        seq![Some((PopupChoice::OpenLocation, "Open file location"@))]
    } else {
        Seq::empty()
    });
    if own.len() > 0 {
        own.push(None)
    } else {
        own
    }
}

/// The lines the panel itself has. Its layout is not edited while something is
/// typed, nor with nothing on it.
pub open spec fn panel_lines(scene: Scene, typing: bool) -> Seq<Option<(PopupChoice, Seq<char>)>> {
    seq![
        Some((PopupChoice::AddApp, "Add app..."@)),
        Some((PopupChoice::AddFolder, "Add folder..."@)),
        Some((PopupChoice::AddFile, "Add file or shortcut..."@)),
    ] + (if !typing && scene.board.sections@.len() > 0 {
        seq![Some((PopupChoice::EditLayout, "Edit layout"@))]
    } else {
        Seq::empty()
    }) + seq![Some((PopupChoice::Settings, "Settings..."@))]
}

/// The whole menu.
pub open spec fn menu_lines(
    scene: Scene,
    tile: Option<usize>,
    typing: bool,
    destination: Option<Seq<char>>,
    locatable: bool,
) -> Seq<Option<(PopupChoice, Seq<char>)>> {
    (match tile {
        Some(tile) => if scene.board.has(tile as int) {
            tile_lines(scene, tile, destination, locatable)
        } else {
            Seq::empty()
        },
        None => Seq::empty(),
    }) + panel_lines(scene, typing)
}

fn add_line(entries: &mut Vec<Option<Entry>>, choice: PopupChoice, label: String)
    ensures
        lines(final(entries)@) == lines(old(entries)@).push(Some((choice, label@))),
{
    let ghost words = label@;
    entries.push(Some(Entry { choice, label }));
    assert(lines(entries@) =~= lines(old(entries)@).push(Some((choice, words))));
}

fn add_tile_lines(
    scene: &Scene,
    tile: usize,
    item: &Item,
    destination: Option<&str>,
    locatable: bool,
) -> (entries: Vec<Option<Entry>>)
    requires
        scene.wf(),
        scene.board.has(tile as int),
        *item == scene.board.tile(tile as int),
    ensures
        lines(entries@) == tile_lines(
            *scene,
            tile,
            match destination {
                Some(title) => Some(title@),
                None => None,
            },
            locatable,
        ),
{
    let mut entries: Vec<Option<Entry>> = Vec::new();
    let ghost named = match destination {
        Some(title) => Some(title@),
        None => None,
    };
    assert(lines(entries@) =~= Seq::empty());
    match &item.target {
        // The app is already on screen and its path is known: no picker.
        Target::Window(_) => if item.icon_source.is_some() {
            add_line(&mut entries, PopupChoice::PinApp, add_label(destination));
        },
        Target::Shell(_) => if removable(&scene.board, tile) {
            add_line(&mut entries, PopupChoice::Unpin, remove_label(scene, tile));
        },
        _ => {},
    }
    assert(lines(entries@) =~= pin_lines(*scene, tile, named));
    if item.center_target().is_some() {
        if item.origin == Source::Center {
            add_line(&mut entries, PopupChoice::Uncenter, "Remove from Center".to_owned());
        } else {
            add_line(&mut entries, PopupChoice::Center, "Add to Center".to_owned());
        }
    }
    assert(lines(entries@) =~= pin_lines(*scene, tile, named) + center_lines(*item));
    if locatable {
        add_line(&mut entries, PopupChoice::OpenLocation, "Open file location".to_owned());
    }
    if entries.len() > 0 {
        let ghost before = entries@;
        entries.push(None);
        assert(lines(entries@) =~= lines(before).push(None));
    }
    assert(lines(entries@) =~= tile_lines(*scene, tile, named, locatable));
    entries
}

/// The menu for a tile, or for the panel itself. `destination` is the title of
/// the box a new pin would land in, and `locatable` whether the tile is backed
/// by something on disk.
///
/// Managing a pin lives here rather than in a mode, and the most useful line is
/// on the tiles that are not pins at all.
pub fn menu_for(
    scene: &Scene,
    tile: Option<usize>,
    typing: bool,
    destination: Option<&str>,
    locatable: bool,
) -> (entries: Vec<Option<Entry>>)
    requires
        scene.wf(),
    ensures
        lines(entries@) == menu_lines(
            *scene,
            tile,
            typing,
            match destination {
                Some(title) => Some(title@),
                None => None,
            },
            locatable,
        ),
{
    let mut entries: Vec<Option<Entry>> = Vec::new();
    assert(lines(entries@) =~= Seq::empty());
    if let Some(tile) = tile {
        if let Some(item) = scene.board.item(tile) {
            entries = add_tile_lines(scene, tile, item, destination, locatable);
        }
    }
    let ghost own = lines(entries@);
    add_line(&mut entries, PopupChoice::AddApp, "Add app...".to_owned());
    add_line(&mut entries, PopupChoice::AddFolder, "Add folder...".to_owned());
    add_line(&mut entries, PopupChoice::AddFile, "Add file or shortcut...".to_owned());
    if !typing && scene.board.sections.len() > 0 {
        add_line(&mut entries, PopupChoice::EditLayout, "Edit layout".to_owned());
    }
    add_line(&mut entries, PopupChoice::Settings, "Settings...".to_owned());
    assert(lines(entries@) =~= own + panel_lines(*scene, typing));
    entries
}

} // verus!

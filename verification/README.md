# bentolaunch

A launcher panel laid out as a bento box: sections are boxes of tiles, each box
is cut out of the panel by a side and a share, and a block in the middle of the
screen holds what is wanted most. The library decides everything the panel does
and proves it; a thin shell around it owns the window, draws, and talks to the
desktop.

Lengths are integers, in 64ths of a pixel. Shares are millionths.

## The library (`src/`)

Laying out:

- `side`, `at`, `tree`: where a box asks to go, and the tree of cuts those add
  up to.
- `section`, `cells`, `place`, `center`, `arrange`, `stretch`, `layout`: from
  sections to rectangles.
- `query`, `ring`, `loops`, `order`: asking a layout things: what is under a
  point, the outline of a box, where a dragged tile lands.
- `lattice`, `shape`, `bento`, `whole`, `corner`, `drops`, `steady`, `absent`,
  `outline`: what holds of every layout.
- `control`, `menu`, `surface`, `percent`: the big squares in the middle of the
  panel.

Using it:

- `model`, `config`, `settings`: what is on the panel, and what it is set to.
- `board`, `filter`, `scene`, `tiles`: the tiles as they stand.
- `session`, `clicks`, `keys`, `drag`, `events`, `answers`, `popup`, `edit`,
  `pairing`: what every message does. A session takes an event, changes, and
  says what is to be done in the world.
- `conduct`, `lights`: what holds of every session.
- `paint`, `faces`, `edges`: what is drawn, where, and how it is lit.

`geometry`, `num` and `text` are what the rest stands on.

## The rest

- `tests/` runs the library on concrete panels.
- `app/` is the shell: `panel` is the loop between window and library, `picture`
  composes a frame, and `window`, `render` and `spotlight` are the Windows side.

use vstd::prelude::*;
use crate::components::Attribute;
use crate::point::{Point, spec_distance_squared, distance_squared};
use crate::map::{TileMap, lemma_cell_index};

verus! {

/// The entries of the main menu.
#[derive(Clone, Copy, Debug, PartialEq, Eq, Structural)]
pub enum MainMenuSelection {
    NewGame,
    LoadGame,
    Quit,
}

/// What the main menu gives back for one frame: the entry now highlighted,
/// or the entry chosen.
#[derive(Clone, Copy, Debug, PartialEq, Eq, Structural)]
pub enum MainMenuResult {
    NoSelection { selected: MainMenuSelection },
    Selected { selected: MainMenuSelection },
}

/// The keys the menus react to; every other key is `Other`.
#[derive(Clone, Copy, Debug, PartialEq, Eq, Structural)]
pub enum MenuKey {
    Escape,
    Up,
    Down,
    Return,
    Other,
}

/// The entry above `s`, wrapping round; "Load Game" is skipped when there is
/// no saved game.
pub open spec fn menu_up(s: MainMenuSelection, save_exists: bool) -> MainMenuSelection {
    match s {
        MainMenuSelection::NewGame => MainMenuSelection::Quit,
        MainMenuSelection::LoadGame => MainMenuSelection::NewGame,
        MainMenuSelection::Quit => if save_exists { MainMenuSelection::LoadGame } else { MainMenuSelection::NewGame },
    }
}

/// The entry below `s`, wrapping round; "Load Game" is skipped when there is
/// no saved game.
pub open spec fn menu_down(s: MainMenuSelection, save_exists: bool) -> MainMenuSelection {
    match s {
        MainMenuSelection::NewGame => if save_exists { MainMenuSelection::LoadGame } else { MainMenuSelection::Quit },
        MainMenuSelection::LoadGame => MainMenuSelection::Quit,
        MainMenuSelection::Quit => MainMenuSelection::NewGame,
    }
}

/// The main menu's answer to a key press (or to none) with `selected`
/// highlighted; `selected` is `None` when the game is not in the main menu,
/// and the answer is then "New Game" highlighted.
pub open spec fn spec_main_menu(selected: Option<MainMenuSelection>, save_exists: bool, key: Option<MenuKey>) -> MainMenuResult {
    match selected {
        None => MainMenuResult::NoSelection { selected: MainMenuSelection::NewGame },
        Some(s) => match key {
            None => MainMenuResult::NoSelection { selected: s },
            Some(MenuKey::Escape) => MainMenuResult::NoSelection { selected: MainMenuSelection::Quit },
            Some(MenuKey::Up) => MainMenuResult::NoSelection { selected: menu_up(s, save_exists) },
            Some(MenuKey::Down) => MainMenuResult::NoSelection { selected: menu_down(s, save_exists) },
            Some(MenuKey::Return) => MainMenuResult::Selected { selected: s },
            Some(MenuKey::Other) => MainMenuResult::NoSelection { selected: s },
        },
    }
}

/// Up then Down in the main menu comes back to the entry that was
/// highlighted, and so does Down then Up, for every entry the menu can
/// highlight ("Load Game" only when there is a saved game).
pub proof fn lemma_menu_up_down(s: MainMenuSelection, save_exists: bool)
    requires
        save_exists || s != MainMenuSelection::LoadGame,
    ensures
        spec_main_menu(Some(menu_up(s, save_exists)), save_exists, Some(MenuKey::Down))
            == (MainMenuResult::NoSelection { selected: s }),
        spec_main_menu(Some(menu_down(s, save_exists)), save_exists, Some(MenuKey::Up))
            == (MainMenuResult::NoSelection { selected: s }),
{
}

/// Without a saved game the arrows never highlight "Load Game".
pub proof fn lemma_menu_skips_load(s: MainMenuSelection)
    ensures
        menu_up(s, false) != MainMenuSelection::LoadGame,
        menu_down(s, false) != MainMenuSelection::LoadGame,
{
}

/// One frame of the main menu: Escape highlights "Quit", the arrows move the
/// highlight (wrapping round, skipping "Load Game" without a saved game),
/// Return chooses the highlighted entry, and anything else keeps it.
pub fn main_menu(selected: Option<MainMenuSelection>, save_exists: bool, key: Option<MenuKey>) -> (r: MainMenuResult)
    ensures
        r == spec_main_menu(selected, save_exists, key),
{
    match selected {
        None => MainMenuResult::NoSelection { selected: MainMenuSelection::NewGame },
        Some(s) => match key {
            None => MainMenuResult::NoSelection { selected: s },
            Some(MenuKey::Escape) => MainMenuResult::NoSelection { selected: MainMenuSelection::Quit },
            Some(MenuKey::Up) => MainMenuResult::NoSelection {
                selected: match s {
                    MainMenuSelection::NewGame => MainMenuSelection::Quit,
                    MainMenuSelection::LoadGame => MainMenuSelection::NewGame,
                    MainMenuSelection::Quit => if save_exists { MainMenuSelection::LoadGame } else { MainMenuSelection::NewGame },
                },
            },
            Some(MenuKey::Down) => MainMenuResult::NoSelection {
                selected: match s {
                    MainMenuSelection::NewGame => if save_exists { MainMenuSelection::LoadGame } else { MainMenuSelection::Quit },
                    MainMenuSelection::LoadGame => MainMenuSelection::Quit,
                    MainMenuSelection::Quit => MainMenuSelection::NewGame,
                },
            },
            Some(MenuKey::Return) => MainMenuResult::Selected { selected: s },
            Some(MenuKey::Other) => MainMenuResult::NoSelection { selected: s },
        },
    }
}

/// The main menu's lines from row 24 down: "Begin New Game", "Load Game"
/// when a saved game exists, and "Quit", each with its row and whether it
/// is highlighted.
pub open spec fn spec_menu_lines(selected: MainMenuSelection, save_exists: bool) -> Seq<(MainMenuSelection, i32, bool)> {
    if save_exists {
        seq![
            (MainMenuSelection::NewGame, 24i32, selected == MainMenuSelection::NewGame),
            (MainMenuSelection::LoadGame, 25i32, selected == MainMenuSelection::LoadGame),
            (MainMenuSelection::Quit, 26i32, selected == MainMenuSelection::Quit),
        ]
    } else {
        seq![
            (MainMenuSelection::NewGame, 24i32, selected == MainMenuSelection::NewGame),
            (MainMenuSelection::Quit, 25i32, selected == MainMenuSelection::Quit),
        ]
    }
}

/// The lines the main menu shows, with their rows and highlights.
pub fn main_menu_lines(selected: MainMenuSelection, save_exists: bool) -> (r: Vec<(MainMenuSelection, i32, bool)>)
    ensures
        r@ == spec_menu_lines(selected, save_exists),
{
    let mut r: Vec<(MainMenuSelection, i32, bool)> = Vec::new();
    let mut y: i32 = 24;
    r.push((MainMenuSelection::NewGame, y, selected == MainMenuSelection::NewGame));
    y = y + 1;
    if save_exists {
        r.push((MainMenuSelection::LoadGame, y, selected == MainMenuSelection::LoadGame));
        y = y + 1;
    }
    r.push((MainMenuSelection::Quit, y, selected == MainMenuSelection::Quit));
    proof {
        assert(r@ =~= spec_menu_lines(selected, save_exists));
    }
    r
}

/// What the game-over screen gives back for one frame.
#[derive(Clone, Copy, Debug, PartialEq, Eq, Structural)]
pub enum GameOverResult {
    NoSelection,
    QuitToMenu,
}

/// Any key leaves the game-over screen for the menu.
pub fn game_over(key_pressed: bool) -> (r: GameOverResult)
    ensures
        r == (if key_pressed { GameOverResult::QuitToMenu } else { GameOverResult::NoSelection }),
{
    if key_pressed { GameOverResult::QuitToMenu } else { GameOverResult::NoSelection }
}

/// What an item menu gives back for one frame.
#[derive(Clone, Copy, Debug, PartialEq, Eq, Structural)]
pub enum ItemMenuResult {
    Cancel,
    NoResponse,
    Selected,
}

/// An item menu's answer: no key gives no response, Escape cancels, and a
/// letter picks the item it labels (`a` the first), if there is one.
/// `letter` is the key's place in the alphabet, or -1 for a key that is no
/// letter.
pub fn item_menu_choice(count: usize, key: Option<MenuKey>, letter: i32) -> (r: (ItemMenuResult, Option<usize>))
    ensures
        key is None ==> r == (ItemMenuResult::NoResponse, None::<usize>),
        key == Some(MenuKey::Escape) ==> r == (ItemMenuResult::Cancel, None::<usize>),
        key is Some && key != Some(MenuKey::Escape) ==> r == (if 0 <= letter < count {
            (ItemMenuResult::Selected, Some(letter as usize))
        } else {
            (ItemMenuResult::NoResponse, None::<usize>)
        }),
{
    match key {
        None => (ItemMenuResult::NoResponse, None),
        Some(MenuKey::Escape) => (ItemMenuResult::Cancel, None),
        Some(_) => {
            if letter >= 0 && (letter as usize) < count {
                (ItemMenuResult::Selected, Some(letter as usize))
            } else {
                (ItemMenuResult::NoResponse, None)
            }
        },
    }
}

/// The row of an item menu's first item: the list is centred on row 25.
pub fn item_menu_top(count: usize) -> (r: i32)
    requires
        count / 2 <= 25,
    ensures
        r == 25 - count / 2,
{
    (25 - count / 2) as i32
}

/// The longest town name the top border shows.
pub const MAX_TOWN_NAME_LENGTH: i32 = 44;

/// Where the map's name goes on the top border: its length once cut to
/// `MAX_TOWN_NAME_LENGTH`, and the column of the bracket before it (the
/// name is centred on the map's frame).
pub fn town_name_layout(name_len: usize) -> (r: (i32, i32))
    ensures
        r.0 == (if name_len > MAX_TOWN_NAME_LENGTH { MAX_TOWN_NAME_LENGTH as int } else { name_len as int }),
        r.1 == (MAX_TOWN_NAME_LENGTH - r.0) / 2,
{
    let shown: i32 = if name_len > MAX_TOWN_NAME_LENGTH as usize { MAX_TOWN_NAME_LENGTH } else { name_len as i32 };
    (shown, (MAX_TOWN_NAME_LENGTH - shown) / 2)
}

/// The rows on which the log's entries are printed: newest first from row
/// 46, as long as the row is above 59. Entry `k` of the result is the index
/// (oldest first) of the entry printed on row `46 + k`.
pub fn log_rows(n_entries: usize) -> (r: Vec<usize>)
    ensures
        r@.len() == if n_entries < 13 { n_entries as int } else { 13 },
        forall|k: int| 0 <= k < r@.len() ==> #[trigger] r@[k] == n_entries - 1 - k,
{
    let mut r: Vec<usize> = Vec::new();
    let mut k: usize = 0;
    while k < n_entries && k < 13
        invariant
            k <= n_entries,
            k <= 13,
            r@.len() == k,
            forall|j: int| 0 <= j < k ==> #[trigger] r@[j] == n_entries - 1 - j,
        decreases 13 - k,
    {
        r.push(n_entries - 1 - k);
        k = k + 1;
    }
    r
}

/// The screen window on the map, centred on the player: columns
/// `min_x..max_x` and rows `min_y..max_y` of a 48 by 44 view.
pub fn get_screen_bounds(player_x: i32, player_y: i32) -> (r: (i32, i32, i32, i32))
    requires
        -0x4000_0000 <= player_x <= 0x4000_0000,
        -0x4000_0000 <= player_y <= 0x4000_0000,
    ensures
        r.0 == player_x - 24,
        r.1 == player_x - 24 + 48,
        r.2 == player_y - 22,
        r.3 == player_y - 22 + 44,
{
    let x_chars: i32 = 48;
    let y_chars: i32 = 44;
    let center_x = x_chars / 2;
    let center_y = y_chars / 2;
    let min_x = player_x - center_x;
    let max_x = min_x + x_chars;
    let min_y = player_y - center_y;
    let max_y = min_y + y_chars;
    (min_x, max_x, min_y, max_y)
}

/// Where a tooltip goes and how it is padded.
#[derive(Clone, Copy, Debug, PartialEq, Eq, Structural)]
pub struct TooltipLayout {
    /// The width of the box: the longest line plus 3.
    pub width: i32,
    /// The column of the first character of each line.
    pub text_x: i32,
    /// The column of the arrow.
    pub arrow_x: i32,
    /// Whether the arrow points right (the tooltip is left of the mouse).
    pub arrow_right: bool,
}

/// The longest of the lengths, or 0 for none.
pub open spec fn max_len(lens: Seq<i32>) -> int
    decreases lens.len(),
{
    if lens.len() == 0 {
        0
    } else {
        let m = max_len(lens.drop_last());
        if m < lens.last() { lens.last() as int } else { m }
    }
}

/// Lays out a tooltip for lines of the given lengths with the mouse at
/// column `mouse_x`: left of the mouse (arrow `->` two columns left of it)
/// when the mouse is right of column 40, else right of it (arrow `<-` one
/// column right of it).
pub fn tooltip_layout(mouse_x: i32, lens: &Vec<i32>) -> (r: TooltipLayout)
    requires
        -0x1000_0000 <= mouse_x <= 0x1000_0000,
        forall|k: int| 0 <= k < lens@.len() ==> 0 <= #[trigger] lens@[k] <= 0x1000_0000,
    ensures
        r.width == max_len(lens@) + 3,
        r.arrow_right == (mouse_x > 40),
        mouse_x > 40 ==> r.text_x == mouse_x - r.width && r.arrow_x == mouse_x - 2,
        mouse_x <= 40 ==> r.text_x == mouse_x + 4 && r.arrow_x == mouse_x + 1,
{
    let mut width: i32 = 0;
    for k in 0..lens.len()
        invariant
            forall|j: int| 0 <= j < lens@.len() ==> 0 <= #[trigger] lens@[j] <= 0x1000_0000,
            width == max_len(lens@.take(k as int)),
            0 <= width <= 0x1000_0000,
    {
        proof {
            assert(lens@.take(k + 1).drop_last() == lens@.take(k as int));
        }
        if width < lens[k] {
            width = lens[k];
        }
    }
    proof { assert(lens@.take(lens@.len() as int) == lens@); }
    width = width + 3;
    if mouse_x > 40 {
        TooltipLayout { width, text_x: mouse_x - width, arrow_x: mouse_x - 2, arrow_right: true }
    } else {
        TooltipLayout { width, text_x: mouse_x + 4, arrow_x: mouse_x + 1, arrow_right: false }
    }
}

/// The map cell under the mouse, for a tooltip: the mouse's screen cell
/// moved by the view's corner and the frame, when it lies inside the map's
/// border.
pub fn tooltip_cell(mouse_x: i32, mouse_y: i32, min_x: i32, min_y: i32, map_width: i32, map_height: i32) -> (r: Option<(i32, i32)>)
    requires
        -0x1000_0000 <= mouse_x <= 0x1000_0000,
        -0x1000_0000 <= mouse_y <= 0x1000_0000,
        -0x1000_0000 <= min_x <= 0x1000_0000,
        -0x1000_0000 <= min_y <= 0x1000_0000,
        -0x1000_0000 <= map_width <= 0x1000_0000,
        -0x1000_0000 <= map_height <= 0x1000_0000,
    ensures
        ({
            let x = mouse_x + min_x - 1;
            let y = mouse_y + min_y - 1;
            r == if 1 <= x < map_width - 1 && 1 <= y < map_height - 1 {
                Some((x as i32, y as i32))
            } else {
                None
            }
        }),
{
    let x = mouse_x + min_x - 1;
    let y = mouse_y + min_y - 1;
    if x >= map_width - 1 || y >= map_height - 1 || x < 1 || y < 1 {
        None
    } else {
        Some((x, y))
    }
}

/// The indices, in order, of the first `n` entities that stand on `cell`
/// and are not hidden.
pub open spec fn tooltip_picks(entities: Seq<(Point, bool)>, cell: (i32, i32), n: int) -> Seq<usize>
    decreases n,
{
    if n <= 0 {
        Seq::empty()
    } else {
        let e = entities[n - 1];
        let rest = tooltip_picks(entities, cell, n - 1);
        if e.0.x == cell.0 && e.0.y == cell.1 && !e.1 { rest.push((n - 1) as usize) } else { rest }
    }
}

/// What a tooltip on map cell `cell` lists, given each entity's position
/// and whether it is hidden: nothing when the cell is out of view, else the
/// indices, in order, of the entities on the cell that are not hidden.
pub fn tooltip_entities(map: &TileMap, cell: (i32, i32), entities: &Vec<(Point, bool)>) -> (r: Vec<usize>)
    requires
        map.wf(),
        map.in_bounds(cell.0 as int, cell.1 as int),
    ensures
        r@ == if map.visible_tiles@[map.idx(cell.0 as int, cell.1 as int)] {
            tooltip_picks(entities@, cell, entities@.len() as int)
        } else {
            Seq::<usize>::empty()
        },
{
    let mut r: Vec<usize> = Vec::new();
    proof { lemma_cell_index(map.width as int, map.height as int, cell.0 as int, cell.1 as int); }
    let idx = map.xy_idx(cell.0, cell.1);
    if !map.visible_tiles[idx] {
        return r;
    }
    let n = entities.len();
    for i in 0..n
        invariant
            n == entities@.len(),
            r@ == tooltip_picks(entities@, cell, i as int),
    {
        let (p, hidden) = entities[i];
        if p.x == cell.0 && p.y == cell.1 && !hidden {
            r.push(i);
        }
    }
    r
}

} // verus!

verus! {

/// The colour an attribute is shown in.
#[derive(Clone, Copy, Debug, PartialEq, Eq, Structural)]
pub enum AttrColor {
    Red,
    White,
    Green,
}

/// How the character sheet shows an attribute: red when it is lowered,
/// white when it is not modified, green when it is raised; the value with
/// its modifiers; and whether a `+` goes before a positive bonus.
pub fn attribute_display(attribute: &Attribute) -> (r: (AttrColor, i32, bool))
    requires
        i32::MIN <= attribute.base + attribute.modifiers <= i32::MAX,
    ensures
        r.0 == (if attribute.modifiers < 0 { AttrColor::Red } else if attribute.modifiers == 0 { AttrColor::White } else { AttrColor::Green }),
        r.1 == attribute.base + attribute.modifiers,
        r.2 == (attribute.bonus > 0),
{
    let color = if attribute.modifiers < 0 {
        AttrColor::Red
    } else if attribute.modifiers == 0 {
        AttrColor::White
    } else {
        AttrColor::Green
    };
    (color, attribute.base + attribute.modifiers, attribute.bonus > 0)
}

/// A visible cell the player can target: within `range` in a straight line
/// of the player, and away from the edges of the screen window.
pub open spec fn targetable(player: Point, range: i32, bounds: (i32, i32, i32, i32), p: Point) -> bool {
    let sx = p.x - bounds.0;
    let sy = p.y - bounds.2;
    &&& spec_distance_squared(player, p) <= range * range
    &&& 1 < sx < (bounds.1 - bounds.0) - 1
    &&& 1 < sy < (bounds.3 - bounds.2) - 1
}

/// The cells the targeting screen offers: the visible cells that can be
/// targeted (see `targetable`), in order.
pub open spec fn target_cells(player: Point, range: i32, bounds: (i32, i32, i32, i32), visible: Seq<Point>) -> Seq<Point> {
    visible.filter(|p: Point| targetable(player, range, bounds, p))
}

/// The targeting screen's answer for one frame, given the cells the player
/// sees (none without a viewshed), the mouse's screen position and whether
/// it was clicked: no viewshed cancels; a click on an offered cell (the
/// mouse's map cell is its screen cell moved by the window's corner less
/// one) selects that cell; a click elsewhere cancels; otherwise no
/// response. Also gives back the cells offered, to highlight.
pub fn ranged_target(player: Point, range: i32, bounds: (i32, i32, i32, i32), visible: Option<&Vec<Point>>,
    mouse: (i32, i32), left_click: bool) -> (r: (ItemMenuResult, Option<Point>, Vec<Point>))
    requires
        0 <= range <= 0x4000,
        -0x4000 <= player.x <= 0x4000,
        -0x4000 <= player.y <= 0x4000,
        -0x100_0000 <= bounds.0 <= bounds.1 <= 0x100_0000,
        -0x100_0000 <= bounds.2 <= bounds.3 <= 0x100_0000,
        -0x100_0000 <= mouse.0 <= 0x100_0000,
        -0x100_0000 <= mouse.1 <= 0x100_0000,
        visible matches Some(v) ==> forall|k: int| 0 <= k < v@.len() ==>
            -0x4000 <= (#[trigger] v@[k]).x <= 0x4000 && -0x4000 <= v@[k].y <= 0x4000,
    ensures
        match visible {
            None => r.0 == ItemMenuResult::Cancel && r.1 is None && r.2@.len() == 0,
            Some(v) => {
                let cells = target_cells(player, range, bounds, v@);
                let at = Point { x: (mouse.0 + bounds.0 - 1) as i32, y: (mouse.1 + bounds.2 - 1) as i32 };
                &&& r.2@ == cells
                &&& if cells.contains(at) {
                    r.0 == (if left_click { ItemMenuResult::Selected } else { ItemMenuResult::NoResponse })
                        && r.1 == (if left_click { Some(at) } else { None })
                } else {
                    r.0 == (if left_click { ItemMenuResult::Cancel } else { ItemMenuResult::NoResponse }) && r.1 is None
                }
            },
        },
{
    let (min_x, max_x, min_y, max_y) = bounds;
    let mut available_cells: Vec<Point> = Vec::new();
    match visible {
        None => {
            return (ItemMenuResult::Cancel, None, available_cells);
        },
        Some(v) => {
            let ghost pred = |p: Point| targetable(player, range, bounds, p);
            for k in 0..v.len()
                invariant
                    0 <= range <= 0x4000,
                    -0x4000 <= player.x <= 0x4000,
                    -0x4000 <= player.y <= 0x4000,
                    bounds == (min_x, max_x, min_y, max_y),
                    -0x100_0000 <= bounds.0 <= bounds.1 <= 0x100_0000,
                    -0x100_0000 <= bounds.2 <= bounds.3 <= 0x100_0000,
                    forall|k: int| 0 <= k < v@.len() ==> -0x4000 <= (#[trigger] v@[k]).x <= 0x4000 && -0x4000 <= v@[k].y <= 0x4000,
                    pred == (|p: Point| targetable(player, range, bounds, p)),
                    available_cells@ == v@.take(k as int).filter(pred),
            {
                let p = v[k];
                proof {
                    assert(v@.take(k + 1) =~= v@.take(k as int).push(p));
                    v@.take(k as int).lemma_filter_push(p, pred);
                    assert(range * range <= 0x4000 * 0x4000) by (nonlinear_arith)
                        requires 0 <= range <= 0x4000;
                }
                let d = distance_squared(player, p);
                let r2 = range as i128 * range as i128;
                let screen_x = p.x - min_x;
                let screen_y = p.y - min_y;
                if d <= r2 && screen_x > 1 && screen_x < (max_x - min_x) - 1 && screen_y > 1 && screen_y < (max_y - min_y) - 1 {
                    available_cells.push(p);
                }
            }
            proof {
                assert(v@.take(v@.len() as int) =~= v@);
            }
            let at = Point { x: mouse.0 + min_x - 1, y: mouse.1 + min_y - 1 };
            let mut valid_target = false;
            for k in 0..available_cells.len()
                invariant
                    valid_target <==> exists|j: int| 0 <= j < k && available_cells@[j] == at,
            {
                if available_cells[k].x == at.x && available_cells[k].y == at.y {
                    valid_target = true;
                }
            }
            proof {
                if valid_target {
                    let j = choose|j: int| 0 <= j < available_cells@.len() && available_cells@[j] == at;
                    assert(available_cells@.contains(at));
                } else {
                    assert(!available_cells@.contains(at));
                }
            }
            if valid_target {
                if left_click {
                    return (ItemMenuResult::Selected, Some(at), available_cells);
                }
            } else {
                if left_click {
                    return (ItemMenuResult::Cancel, None, available_cells);
                }
            }
            (ItemMenuResult::NoResponse, None, available_cells)
        },
    }
}

} // verus!

use stars::browser::{Action, App, Page, Redraw, Scroll};
use stars::grid::{Dir, Grid};

fn redraw(header: bool, diagram: bool, side: bool, detail: bool) -> Action {
    Action::Redraw(Redraw { header, diagram, side, detail })
}

#[test]
fn grid_groups_stars_by_cell_in_catalog_order() {
    let cells = vec![(3, 4), (10, 2), (3, 4), (0, 0), (3, 4)];
    let g = Grid::build(&cells);
    assert_eq!(g.stars_in((3, 4)), vec![0, 2, 4]);
    assert_eq!(g.stars_in((10, 2)), vec![1]);
    assert_eq!(g.stars_in((0, 0)), vec![3]);
    assert_eq!(g.stars_in((5, 5)), Vec::<usize>::new());
}

#[test]
fn step_takes_the_first_occupied_cell_along_the_line() {
    let cells = vec![(10, 8), (14, 8), (20, 8), (12, 3)];
    let g = Grid::build(&cells);
    assert_eq!(g.step((10, 8), Dir::Right), Some(1));
    assert_eq!(g.step((14, 8), Dir::Right), Some(2));
    assert_eq!(g.step((14, 8), Dir::Left), Some(0));
}

#[test]
fn step_falls_back_to_the_cheapest_cell_on_that_side() {
    // Row 8 holds nothing to the left of column 10, and column 10 holds
    // nothing above or below row 8, so those steps pick the cheapest cell
    // on that side: distance ahead plus twice the distance off the line.
    let cells = vec![(10, 8), (8, 6), (2, 9), (12, 8)];
    let g = Grid::build(&cells);
    // Left from (10, 8): (8, 6) costs 2 + 4 = 6, (2, 9) costs 8 + 2 = 10.
    assert_eq!(g.step((10, 8), Dir::Left), Some(1));
    // Up from (10, 8) (toward row 0): nothing in column 10, only (8, 6) is above.
    assert_eq!(g.step((10, 8), Dir::Up), Some(1));
    // Down: only (2, 9) lies below.
    assert_eq!(g.step((10, 8), Dir::Down), Some(2));
    // Right: (12, 8) on the line.
    assert_eq!(g.step((10, 8), Dir::Right), Some(3));
    // Nothing to the right of (12, 8).
    assert_eq!(g.step((12, 8), Dir::Right), None);
}

fn app() -> App {
    // stars 0 and 2 share a cell; star 1 sits to the right; star 3 above.
    App::new(vec![(10, 8), (20, 8), (10, 8), (10, 2)], 0)
}

#[test]
fn new_app_opens_on_the_article() {
    let a = app();
    assert_eq!(a.sel(), 0);
    assert_eq!(a.cell_ix(), 0);
    assert_eq!(a.mode(), 0);
    assert_eq!(a.track(), 0);
    assert_eq!(a.page(), Page::Article);
    assert_eq!(a.cur_cell(), (10, 8));
    assert_eq!(a.cur_cell_stars(), vec![0, 2]);
    assert_eq!(a.star_count(), 4);
}

#[test]
fn arrows_walk_the_diagram() {
    let mut a = app();
    assert_eq!(a.on_key("RIGHT"), redraw(true, true, true, true));
    assert_eq!(a.sel(), 1);
    assert_eq!(a.on_key("h"), redraw(true, true, true, true));
    assert_eq!(a.sel(), 0);
    assert_eq!(a.on_key("UP"), redraw(true, true, true, true));
    assert_eq!(a.sel(), 3);
    assert_eq!(a.on_key("k"), Action::Nothing);
    assert_eq!(a.sel(), 3);
}

#[test]
fn tab_cycles_the_cell_and_back() {
    let mut a = app();
    assert_eq!(a.on_key("TAB"), redraw(true, true, true, true));
    assert_eq!(a.sel(), 2);
    assert_eq!(a.cell_ix(), 1);
    assert_eq!(a.on_key("S-TAB"), redraw(true, true, true, true));
    assert_eq!(a.sel(), 0);
    assert_eq!(a.cell_ix(), 0);
    a.on_key("RIGHT");
    assert_eq!(a.on_key("TAB"), Action::Nothing);
}

#[test]
fn brightness_tour_stops_at_the_ends() {
    let mut a = app();
    assert_eq!(a.on_key("p"), Action::Nothing);
    assert_eq!(a.sel(), 0);
    a.on_key("n");
    a.on_key(">");
    a.on_key("n");
    assert_eq!(a.sel(), 3);
    assert_eq!(a.on_key("n"), Action::Nothing);
    assert_eq!(a.sel(), 3);
    a.on_key("<");
    assert_eq!(a.sel(), 2);
}

#[test]
fn color_modes_cycle() {
    let mut a = app();
    assert_eq!(a.on_key("C-LEFT"), redraw(true, true, false, false));
    assert_eq!(a.mode(), 6);
    a.on_key("C-RIGHT");
    assert_eq!(a.mode(), 0);
    assert_eq!(a.on_key("4"), redraw(true, true, false, true));
    assert_eq!(a.mode(), 3);
    assert_eq!(a.on_key("8"), Action::Nothing);
    assert_eq!(a.mode(), 3);
}

#[test]
fn mode_menu_picks_a_mode() {
    let mut a = app();
    assert_eq!(a.on_key("m"), redraw(false, false, false, true));
    assert_eq!(a.page(), Page::Modes);
    assert_eq!(a.menu_ix(), 0);
    a.on_key("UP");
    assert_eq!(a.menu_ix(), 6);
    a.on_key("j");
    a.on_key("j");
    assert_eq!(a.menu_ix(), 1);
    // arrows move the menu, not the cursor
    assert_eq!(a.sel(), 0);
    assert_eq!(a.on_key("ENTER"), redraw(false, true, false, true));
    assert_eq!(a.mode(), 1);
    assert_eq!(a.page(), Page::Article);
}

#[test]
fn tracks_cycle_through_five_states() {
    let mut a = app();
    let mut seen = Vec::new();
    for _ in 0..5 {
        a.on_key("t");
        seen.push(a.track());
    }
    assert_eq!(seen, vec![1, 2, 3, 4, 0]);
    a.on_key("t");
    assert!(a.shows_track(0));
    assert!(!a.shows_track(1));
    a.on_key("t");
    a.on_key("t");
    a.on_key("t");
    assert!(a.shows_track(0) && a.shows_track(1) && a.shows_track(2));
}

#[test]
fn escape_and_toggles() {
    let mut a = app();
    assert_eq!(a.on_key("?"), redraw(false, false, false, true));
    assert_eq!(a.page(), Page::Help);
    assert_eq!(a.on_key("ESC"), redraw(false, false, false, true));
    assert_eq!(a.page(), Page::Article);
    assert_eq!(a.on_key("ESC"), Action::Quit);
    a.on_key("C");
    assert_eq!(a.page(), Page::Chat);
    a.on_key("C");
    assert_eq!(a.page(), Page::Article);
    assert_eq!(a.on_key("q"), Action::Quit);
}

#[test]
fn other_keys_are_handed_to_the_caller() {
    let mut a = app();
    assert_eq!(a.on_key("ENTER"), Action::PickCell(0));
    assert_eq!(a.on_key("L"), Action::PickAll);
    assert_eq!(a.on_key("e"), Action::Export);
    assert_eq!(a.on_key("J"), Action::Scroll(Scroll::LineDown));
    assert_eq!(a.on_key("S-UP"), Action::Scroll(Scroll::LineUp));
    assert_eq!(a.on_key(" "), Action::Scroll(Scroll::PageDown));
    assert_eq!(a.on_key("PgUP"), Action::Scroll(Scroll::PageUp));
    assert_eq!(a.on_key("HOME"), Action::Scroll(Scroll::Top));
    assert_eq!(a.on_key("G"), Action::Scroll(Scroll::Bottom));
    assert_eq!(a.on_key("/"), Action::Find);
    assert_eq!(a.on_key("w"), Action::OpenPage);
    assert_eq!(a.on_key("c"), Action::Ask);
    assert_eq!(a.on_key("u"), Action::Rebuild);
    assert_eq!(a.on_key("RESIZE"), Action::Resize);
    assert_eq!(a.on_key("x"), Action::Nothing);
}

#[test]
fn conversation_is_kept_for_the_same_star_only() {
    let mut a = app();
    a.add_chat("How hot?".to_string(), "Very.".to_string());
    assert_eq!(a.page(), Page::Chat);
    assert_eq!(a.chat().len(), 1);
    // selecting the same star keeps the conversation
    assert_eq!(a.select(0), redraw(true, true, true, true));
    assert_eq!(a.chat().len(), 1);
    assert_eq!(a.page(), Page::Article);
    // a new star drops it
    a.select(1);
    assert_eq!(a.chat().len(), 0);
    a.add_chat("q".to_string(), "a".to_string());
    a.pick(1);
    assert_eq!(a.chat().len(), 1);
    a.pick(2);
    assert_eq!(a.chat().len(), 0);
    assert_eq!(a.cell_ix(), 1);
}

#[test]
fn reload_keeps_the_old_grouping_until_rebuilt() {
    let mut a = app();
    a.reload(vec![(1, 1), (2, 2)], 1);
    assert_eq!(a.sel(), 1);
    assert_eq!(a.cur_cell(), (2, 2));
    assert_eq!(a.cur_cell_stars(), Vec::<usize>::new());
    a.build_cells();
    assert_eq!(a.cur_cell_stars(), vec![1]);
}

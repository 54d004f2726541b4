//! The explorer's state: which star is selected, how the diagram is
//! colored, what the article pane shows, and what each key does to it.

use vstd::prelude::*;

use crate::grid::{members, Cell, Dir, Grid};
use crate::text::{chars_of, first_index_of, lemma_first_index_absent, lemma_first_index_found, same_chars};

verus! {

/// How many color modes the diagram has.
pub const MODE_COUNT: usize = 7;

/// How many evolutionary tracks can be laid over the diagram.
pub const TRACK_COUNT: usize = 3;

/// What the article pane shows.
#[derive(Clone, Copy, PartialEq, Eq, Structural, Debug)]
pub enum Page {
    Article,
    Help,
    Chat,
    Modes,
}

/// Which parts of the screen a key press changed.
#[derive(Clone, Copy, PartialEq, Eq, Structural, Debug)]
pub struct Redraw {
    pub header: bool,
    pub diagram: bool,
    pub side: bool,
    pub detail: bool,
}

/// How the article pane scrolls.
#[derive(Clone, Copy, PartialEq, Eq, Structural, Debug)]
pub enum Scroll {
    LineDown,
    LineUp,
    PageDown,
    PageUp,
    Top,
    Bottom,
}

/// What the caller does after a key press.
#[derive(Clone, Copy, PartialEq, Eq, Structural, Debug)]
pub enum Action {
    Nothing,
    Quit,
    Redraw(Redraw),
    /// List the stars of the selected star's cell, opening on the given row.
    PickCell(usize),
    /// List the whole catalog in the order the color mode implies.
    PickAll,
    /// Write that same list to a CSV file.
    Export,
    Scroll(Scroll),
    /// Ask for a star name and select the star it finds.
    Find,
    /// Open the selected star's article in the browser.
    OpenPage,
    /// Ask a question about the selected star.
    Ask,
    /// Rebuild the catalog.
    Rebuild,
    /// The terminal changed size.
    Resize,
}

pub open spec fn redraw(header: bool, diagram: bool, side: bool, detail: bool) -> Action {
    Action::Redraw(Redraw { header, diagram, side, detail })
}

/// The state of the explorer, as the contracts speak of it.
pub struct AppModel {
    /// The plot cell of each star, in catalog order.
    pub star_cells: Seq<Cell>,
    pub sel: int,
    /// Which star of the selected star's cell Tab last landed on.
    pub cell_ix: int,
    /// The stars of each cell, as grouped when the catalog was loaded.
    pub grid: Grid,
    pub mode: int,
    /// 0 = off, 1..=3 one track, 4 all of them.
    pub track: int,
    pub view: Page,
    pub menu_ix: int,
    /// The conversation about the selected star: questions and answers.
    pub chat: Seq<(Seq<char>, Seq<char>)>,
}

impl AppModel {
    pub open spec fn valid(self) -> bool {
        &&& self.star_cells.len() <= usize::MAX
        &&& 0 <= self.sel < self.star_cells.len()
        &&& 0 <= self.mode < MODE_COUNT
        &&& 0 <= self.track < TRACK_COUNT + 2
        &&& 0 <= self.menu_ix < MODE_COUNT
        &&& self.cell_ix >= 0
    }

    /// The stars sharing the selected star's cell.
    pub open spec fn cur_cell_stars(self) -> Seq<usize> {
        self.grid.stars_at(self.star_cells[self.sel])
    }

    /// The cells were grouped from the current catalog.
    pub open spec fn grid_current(self) -> bool {
        forall|c: Cell| #[trigger] self.grid.stars_at(c) == members(self.star_cells, c)
    }
}

/// Where `x` stands in `list`, or 0 when it is not there.
pub open spec fn position_or_zero(list: Seq<usize>, x: usize) -> int {
    match first_index_of(list, x) {
        Some(i) => i,
        None => 0,
    }
}

/// Selecting star `new`: nothing happens when it is already shown in the
/// article view; otherwise the conversation is dropped if the star
/// changes, the article view comes back, and Tab's cursor moves onto it.
pub open spec fn after_select(m: AppModel, new: int) -> AppModel {
    if new == m.sel && m.view == Page::Article {
        m
    } else {
        AppModel {
            chat: if new != m.sel {
                Seq::empty()
            } else {
                m.chat
            },
            sel: new,
            view: Page::Article,
            cell_ix: position_or_zero(m.grid.stars_at(m.star_cells[new]), new as usize),
            ..m
        }
    }
}

/// What selecting star `new` redraws.
pub open spec fn select_action(m: AppModel, new: int) -> Action {
    if new == m.sel && m.view == Page::Article {
        Action::Nothing
    } else {
        redraw(true, true, true, true)
    }
}

/// Selecting `t` if it names a star of the catalog; a grouping left over
/// from an earlier catalog can name one past its end, and that is ignored.
pub open spec fn select_effect(m: AppModel, t: int, new: AppModel, act: Action) -> bool {
    if 0 <= t < m.star_cells.len() {
        new == after_select(m, t) && act == select_action(m, t)
    } else {
        new == m && act == Action::Nothing
    }
}

/// What `Grid::step` may answer for a walk from `from` in direction `d`.
pub open spec fn step_answers(g: Grid, from: Cell, d: Dir, r: Option<usize>) -> bool {
    g.step_answer(from, d, r)
}

/// Walking the cursor one cell in direction `d`.
pub open spec fn step_effect(m: AppModel, d: Dir, new: AppModel, act: Action) -> bool {
    exists|r: Option<usize>|
        #![trigger step_answers(m.grid, m.star_cells[m.sel], d, r)]
        step_answers(m.grid, m.star_cells[m.sel], d, r) && match r {
            Some(t) => select_effect(m, t as int, new, act),
            None => new == m && act == Action::Nothing,
        }
}

/// The row Tab (`forward`) or Shift-Tab moves to in a cell of `len` stars.
pub open spec fn cycled_index(at: int, len: int, forward: bool) -> int {
    if forward {
        (at + 1) % len
    } else {
        (at + len - 1) % len
    }
}

/// Cycling through the stars that share the selected star's cell.
pub open spec fn cycle_effect(m: AppModel, forward: bool, new: AppModel, act: Action) -> bool {
    let list = m.cur_cell_stars();
    if list.len() < 2 {
        new == m && act == Action::Nothing
    } else {
        let next = cycled_index(position_or_zero(list, m.sel as usize), list.len() as int, forward);
        select_effect(AppModel { cell_ix: next, ..m }, list[next] as int, new, act)
    }
}

pub open spec fn toggled(v: Page, to: Page) -> Page {
    if v == to {
        Page::Article
    } else {
        to
    }
}

/// What key `key` does to the explorer in state `m`: the state `new` it
/// leaves and what the caller is to do.
pub open spec fn key_effect(m: AppModel, key: Seq<char>, new: AppModel, act: Action) -> bool {
    let n = m.star_cells.len() as int;
    if key == "q"@ {
        new == m && act == Action::Quit
    } else if key == "ESC"@ {
        if m.view == Page::Article {
            new == m && act == Action::Quit
        } else {
            new == AppModel { view: Page::Article, ..m } && act == redraw(false, false, false, true)
        }
    } else if (key == "UP"@ || key == "k"@ || key == "DOWN"@ || key == "j"@) && m.view == Page::Modes {
        let up = key == "UP"@ || key == "k"@;
        new == AppModel {
            menu_ix: if up {
                (m.menu_ix + MODE_COUNT - 1) % (MODE_COUNT as int)
            } else {
                (m.menu_ix + 1) % (MODE_COUNT as int)
            },
            ..m
        } && act == redraw(false, false, false, true)
    } else if key == "ENTER"@ && m.view == Page::Modes {
        new == AppModel { mode: m.menu_ix, view: Page::Article, ..m } && act == redraw(
            false,
            true,
            false,
            true,
        )
    } else if key == "LEFT"@ || key == "h"@ {
        step_effect(m, Dir::Left, new, act)
    } else if key == "RIGHT"@ || key == "l"@ {
        step_effect(m, Dir::Right, new, act)
    } else if key == "UP"@ || key == "k"@ {
        step_effect(m, Dir::Up, new, act)
    } else if key == "DOWN"@ || key == "j"@ {
        step_effect(m, Dir::Down, new, act)
    } else if key == "TAB"@ {
        cycle_effect(m, true, new, act)
    } else if key == "S-TAB"@ {
        cycle_effect(m, false, new, act)
    } else if key == ">"@ || key == "n"@ {
        let t = if m.sel + 1 < n - 1 {
            m.sel + 1
        } else {
            n - 1
        };
        new == after_select(m, t) && act == select_action(m, t)
    } else if key == "<"@ || key == "p"@ {
        let t = if m.sel > 0 {
            m.sel - 1
        } else {
            0
        };
        new == after_select(m, t) && act == select_action(m, t)
    } else if key == "ENTER"@ {
        new == m && act == (if m.cur_cell_stars().len() > 0 {
            Action::PickCell(m.cell_ix as usize)
        } else {
            Action::Nothing
        })
    } else if key == "L"@ {
        new == m && act == Action::PickAll
    } else if key == "e"@ {
        new == m && act == Action::Export
    } else if key.len() == 1 && '1' <= key[0] && key[0] <= '7' {
        new == AppModel { mode: key[0] as int - '1' as int, view: Page::Article, ..m } && act
            == redraw(true, true, false, true)
    } else if key == "C-RIGHT"@ {
        new == AppModel { mode: (m.mode + 1) % (MODE_COUNT as int), ..m } && act == redraw(
            true,
            true,
            false,
            false,
        )
    } else if key == "C-LEFT"@ {
        new == AppModel { mode: (m.mode + MODE_COUNT - 1) % (MODE_COUNT as int), ..m } && act
            == redraw(true, true, false, false)
    } else if key == "m"@ {
        new == AppModel { view: toggled(m.view, Page::Modes), menu_ix: m.mode, ..m } && act == redraw(
            false,
            false,
            false,
            true,
        )
    } else if key == "t"@ {
        new == AppModel { track: (m.track + 1) % (TRACK_COUNT as int + 2), ..m } && act == redraw(
            true,
            true,
            false,
            m.view == Page::Article,
        )
    } else if key == "J"@ || key == "S-DOWN"@ {
        new == m && act == Action::Scroll(Scroll::LineDown)
    } else if key == "K"@ || key == "S-UP"@ {
        new == m && act == Action::Scroll(Scroll::LineUp)
    } else if key == " "@ || key == "PgDOWN"@ {
        new == m && act == Action::Scroll(Scroll::PageDown)
    } else if key == "PgUP"@ {
        new == m && act == Action::Scroll(Scroll::PageUp)
    } else if key == "g"@ || key == "HOME"@ {
        new == m && act == Action::Scroll(Scroll::Top)
    } else if key == "G"@ || key == "END"@ {
        new == m && act == Action::Scroll(Scroll::Bottom)
    } else if key == "/"@ {
        new == m && act == Action::Find
    } else if key == "w"@ {
        new == m && act == Action::OpenPage
    } else if key == "c"@ {
        new == m && act == Action::Ask
    } else if key == "C"@ {
        new == AppModel { view: toggled(m.view, Page::Chat), ..m } && act == redraw(
            false,
            false,
            false,
            true,
        )
    } else if key == "u"@ {
        new == m && act == Action::Rebuild
    } else if key == "?"@ {
        new == AppModel { view: toggled(m.view, Page::Help), ..m } && act == redraw(
            false,
            false,
            false,
            true,
        )
    } else if key == "RESIZE"@ {
        new == m && act == Action::Resize
    } else {
        new == m && act == Action::Nothing
    }
}

pub open spec fn chat_view(c: Seq<(String, String)>) -> Seq<(Seq<char>, Seq<char>)> {
    c.map_values(|p: (String, String)| (p.0@, p.1@))
}

/// The explorer's state.
pub struct App {
    star_cells: Vec<Cell>,
    sel: usize,
    cell_ix: usize,
    cells: Grid,
    mode: usize,
    track: usize,
    view: Page,
    menu_ix: usize,
    chat: Vec<(String, String)>,
}

impl vstd::view::View for App {
    type V = AppModel;

    closed spec fn view(&self) -> AppModel {
        AppModel {
            star_cells: self.star_cells@,
            sel: self.sel as int,
            cell_ix: self.cell_ix as int,
            grid: self.cells,
            mode: self.mode as int,
            track: self.track as int,
            view: self.view,
            menu_ix: self.menu_ix as int,
            chat: chat_view(self.chat@),
        }
    }
}

/// Where `x` first stands in `list`.
fn index_in(list: &Vec<usize>, x: usize) -> (r: Option<usize>)
    ensures
        match r {
            Some(i) => first_index_of(list@, x) == Some(i as int),
            None => first_index_of(list@, x) is None,
        },
        r matches Some(i) ==> i < list@.len(),
{
    let n = list.len();
    let mut i: usize = 0;
    while i < n
        invariant
            i <= n,
            n == list@.len(),
            forall|k: int| 0 <= k < i ==> list@[k] != x,
        decreases n - i,
    {
        if list[i] == x {
            proof {
                lemma_first_index_found(list@, x, i as int);
            }
            return Some(i);
        }
        i = i + 1;
    }
    proof {
        lemma_first_index_absent(list@, x);
    }
    None
}

fn position_or_zero_exec(list: &Vec<usize>, x: usize) -> (i: usize)
    ensures
        i as int == position_or_zero(list@, x),
{
    match index_in(list, x) {
        Some(i) => i,
        None => 0,
    }
}

/// Whether the key pressed is `lit`.
fn is_key(k: &[char], lit: &str) -> (b: bool)
    ensures
        b == (k@ == lit@),
{
    let l = chars_of(lit);
    same_chars(k, l.as_slice())
}

impl App {
    #[verifier::type_invariant]
    closed spec fn well_formed(self) -> bool {
        self@.valid()
    }

    /// The explorer on a freshly loaded catalog: star `i` sits in plot cell
    /// `star_cells[i]`, and star `sel` is shown.
    pub fn new(star_cells: Vec<Cell>, sel: usize) -> (app: App)
        requires
            sel < star_cells@.len(),
        ensures
            app@.valid(),
            app@.grid_current(),
            app@.star_cells == star_cells@,
            app@.sel == sel,
            app@.cell_ix == position_or_zero(members(star_cells@, star_cells@[sel as int]), sel),
            app@.mode == 0,
            app@.track == 0,
            app@.view == Page::Article,
            app@.menu_ix == 0,
            app@.chat.len() == 0,
    {
        let count = star_cells.len();
        assert(star_cells@.len() == count);
        let cells = Grid::build(&star_cells);
        let list = cells.stars_in(star_cells[sel]);
        let cell_ix = position_or_zero_exec(&list, sel);
        let app = App {
            star_cells,
            sel,
            cell_ix,
            cells,
            mode: 0,
            track: 0,
            view: Page::Article,
            menu_ix: 0,
            chat: Vec::new(),
        };
        assert(app@.chat =~= Seq::<(Seq<char>, Seq<char>)>::empty());
        app
    }

    /// Groups the stars by plot cell again, from the current catalog.
    pub fn build_cells(&mut self)
        ensures
            final(self)@.valid(),
            final(self)@.grid_current(),
            final(self)@ == (AppModel { grid: final(self)@.grid, ..old(self)@ }),
    {
        proof {
            use_type_invariant(&*self);
        }
        self.cells = Grid::build(&self.star_cells);
    }

    /// The cell the selected star sits in.
    pub fn cur_cell(&self) -> (c: Cell)
        ensures
            c == self@.star_cells[self@.sel],
    {
        proof {
            use_type_invariant(self);
        }
        self.star_cells[self.sel]
    }

    /// Every star in the current cell, brightest first.
    pub fn cur_cell_stars(&self) -> (stars: Vec<usize>)
        ensures
            stars@ == self@.cur_cell_stars(),
    {
        proof {
            use_type_invariant(self);
        }
        self.cells.stars_in(self.star_cells[self.sel])
    }

    /// How many stars the catalog holds.
    pub fn star_count(&self) -> (n: usize)
        ensures
            n == self@.star_cells.len(),
    {
        self.star_cells.len()
    }

    pub fn sel(&self) -> (i: usize)
        ensures
            i == self@.sel,
            i < self@.star_cells.len(),
    {
        proof {
            use_type_invariant(self);
        }
        self.sel
    }

    pub fn cell_ix(&self) -> (i: usize)
        ensures
            i == self@.cell_ix,
    {
        self.cell_ix
    }

    pub fn mode(&self) -> (m: usize)
        ensures
            m == self@.mode,
            m < MODE_COUNT,
    {
        proof {
            use_type_invariant(self);
        }
        self.mode
    }

    pub fn track(&self) -> (t: usize)
        ensures
            t == self@.track,
            t < TRACK_COUNT + 2,
    {
        proof {
            use_type_invariant(self);
        }
        self.track
    }

    pub fn page(&self) -> (v: Page)
        ensures
            v == self@.view,
    {
        self.view
    }

    pub fn menu_ix(&self) -> (i: usize)
        ensures
            i == self@.menu_ix,
            i < MODE_COUNT,
    {
        proof {
            use_type_invariant(self);
        }
        self.menu_ix
    }

    /// The conversation about the selected star, oldest first.
    pub fn chat(&self) -> (c: &Vec<(String, String)>)
        ensures
            chat_view(c@) == self@.chat,
    {
        &self.chat
    }

    /// Whether evolutionary track `i` (counted from 0) is laid over the
    /// diagram: the one chosen, or all of them.
    pub fn shows_track(&self, i: usize) -> (shown: bool)
        ensures
            shown == (self@.track == TRACK_COUNT + 1 || self@.track == i + 1),
    {
        proof {
            use_type_invariant(self);
        }
        self.track == TRACK_COUNT + 1 || (i < TRACK_COUNT + 1 && self.track == i + 1)
    }

    /// Shows star `new`: see `after_select`. Answers what to redraw.
    pub fn select(&mut self, new: usize) -> (act: Action)
        requires
            new < old(self)@.star_cells.len(),
        ensures
            final(self)@ == after_select(old(self)@, new as int),
            act == select_action(old(self)@, new as int),
            final(self)@.valid(),
    {
        proof {
            use_type_invariant(&*self);
        }
        if new == self.sel && self.view == Page::Article {
            return Action::Nothing;
        }
        if new != self.sel {
            self.chat = Vec::new();
        }
        self.sel = new;
        self.view = Page::Article;
        let list = self.cells.stars_in(self.star_cells[new]);
        self.cell_ix = position_or_zero_exec(&list, new);
        proof {
            assert(chat_view(self.chat@) =~= (if new != old(self)@.sel {
                Seq::empty()
            } else {
                old(self)@.chat
            }));
        }
        Action::Redraw(Redraw { header: true, diagram: true, side: true, detail: true })
    }

    /// Walks the cursor one cell in direction `d`; see `Grid::step`.
    pub fn step(&mut self, d: Dir) -> (act: Action)
        ensures
            step_effect(old(self)@, d, final(self)@, act),
            final(self)@.valid(),
    {
        proof {
            use_type_invariant(&*self);
        }
        let from = self.star_cells[self.sel];
        let r = self.cells.step(from, d);
        assert(step_answers(old(self)@.grid, old(self)@.star_cells[old(self)@.sel], d, r));
        match r {
            Some(t) => {
                if t < self.star_cells.len() {
                    self.select(t)
                } else {
                    Action::Nothing
                }
            },
            None => Action::Nothing,
        }
    }

    /// Tab (`forward`) or Shift-Tab: the next or previous star sharing the
    /// selected star's cell.
    pub fn cycle_cell(&mut self, forward: bool) -> (act: Action)
        ensures
            cycle_effect(old(self)@, forward, final(self)@, act),
            final(self)@.valid(),
    {
        proof {
            use_type_invariant(&*self);
        }
        let list = self.cells.stars_in(self.star_cells[self.sel]);
        let len = list.len();
        if len < 2 {
            return Action::Nothing;
        }
        let at = position_or_zero_exec(&list, self.sel);
        proof {
            lemma_position_bound(list@, self.sel);
        }
        let next = if forward {
            (at + 1) % len
        } else if at == 0 {
            len - 1
        } else {
            at - 1
        };
        proof {
            let a = at as int;
            let l = len as int;
            if !forward {
                if a == 0 {
                    assert((a + l - 1) % l == l - 1) by (nonlinear_arith)
                        requires
                            a == 0,
                            l >= 2,
                    ;
                } else {
                    assert((a + l - 1) % l == a - 1) by (nonlinear_arith)
                        requires
                            0 < a < l,
                    ;
                }
            }
        }
        self.cell_ix = next;
        let t = list[next];
        if t < self.star_cells.len() {
            self.select(t)
        } else {
            Action::Nothing
        }
    }

    /// The star picked from a list becomes the selected one, in the
    /// article view.
    pub fn pick(&mut self, i: usize)
        requires
            i < old(self)@.star_cells.len(),
        ensures
            final(self)@ == (AppModel {
                chat: if i as int != old(self)@.sel {
                    Seq::empty()
                } else {
                    old(self)@.chat
                },
                sel: i as int,
                view: Page::Article,
                cell_ix: position_or_zero(
                    old(self)@.grid.stars_at(old(self)@.star_cells[i as int]),
                    i,
                ),
                ..old(self)@
            }),
            final(self)@.valid(),
    {
        proof {
            use_type_invariant(&*self);
        }
        if i != self.sel {
            self.chat = Vec::new();
        }
        self.sel = i;
        self.view = Page::Article;
        let list = self.cells.stars_in(self.star_cells[i]);
        self.cell_ix = position_or_zero_exec(&list, i);
        proof {
            assert(chat_view(self.chat@) =~= (if i as int != old(self)@.sel {
                Seq::empty()
            } else {
                old(self)@.chat
            }));
        }
    }

    /// An answer about the selected star joins the conversation, which is
    /// then shown.
    pub fn add_chat(&mut self, question: String, answer: String)
        ensures
            final(self)@ == (AppModel {
                chat: old(self)@.chat.push((question@, answer@)),
                view: Page::Chat,
                ..old(self)@
            }),
            final(self)@.valid(),
    {
        proof {
            use_type_invariant(&*self);
        }
        let ghost q = question@;
        let ghost a = answer@;
        let mut chat: Vec<(String, String)> = Vec::new();
        std::mem::swap(&mut chat, &mut self.chat);
        chat.push((question, answer));
        self.chat = chat;
        self.view = Page::Chat;
        assert(chat_view(self.chat@) =~= old(self)@.chat.push((q, a)));
    }

    /// A rebuilt catalog replaces the old one, with star `sel` selected.
    /// The stars stay grouped by the cells of the old catalog.
    pub fn reload(&mut self, star_cells: Vec<Cell>, sel: usize)
        requires
            sel < star_cells@.len(),
        ensures
            final(self)@ == (AppModel { star_cells: star_cells@, sel: sel as int, ..old(self)@ }),
            final(self)@.valid(),
    {
        proof {
            use_type_invariant(&*self);
        }
        let count = star_cells.len();
        assert(star_cells@.len() == count);
        self.sel = 0;
        self.star_cells = star_cells;
        self.sel = sel;
    }

    /// What a key press does; see `key_effect`.
    pub fn on_key(&mut self, key: &str) -> (act: Action)
        ensures
            key_effect(old(self)@, key@, final(self)@, act),
            final(self)@.valid(),
    {
        proof {
            use_type_invariant(&*self);
        }
        let kc = chars_of(key);
        let k = kc.as_slice();
        if is_key(k, "q") {
            return Action::Quit;
        }
        if is_key(k, "ESC") {
            if self.view == Page::Article {
                return Action::Quit;
            }
            self.view = Page::Article;
            return Action::Redraw(Redraw { header: false, diagram: false, side: false, detail: true });
        }
        let up = is_key(k, "UP") || is_key(k, "k");
        let down = is_key(k, "DOWN") || is_key(k, "j");
        if (up || down) && self.view == Page::Modes {
            self.menu_ix = if up {
                (self.menu_ix + MODE_COUNT - 1) % MODE_COUNT
            } else {
                (self.menu_ix + 1) % MODE_COUNT
            };
            return Action::Redraw(Redraw { header: false, diagram: false, side: false, detail: true });
        }
        let enter = is_key(k, "ENTER");
        if enter && self.view == Page::Modes {
            self.mode = self.menu_ix;
            self.view = Page::Article;
            return Action::Redraw(Redraw { header: false, diagram: true, side: false, detail: true });
        }
        if is_key(k, "LEFT") || is_key(k, "h") {
            return self.step(Dir::Left);
        }
        if is_key(k, "RIGHT") || is_key(k, "l") {
            return self.step(Dir::Right);
        }
        if up {
            return self.step(Dir::Up);
        }
        if down {
            return self.step(Dir::Down);
        }
        if is_key(k, "TAB") {
            return self.cycle_cell(true);
        }
        if is_key(k, "S-TAB") {
            return self.cycle_cell(false);
        }
        let n = self.star_cells.len();
        if is_key(k, ">") || is_key(k, "n") {
            let t = if self.sel + 1 < n - 1 {
                self.sel + 1
            } else {
                n - 1
            };
            return self.select(t);
        }
        if is_key(k, "<") || is_key(k, "p") {
            let t = if self.sel > 0 {
                self.sel - 1
            } else {
                0
            };
            return self.select(t);
        }
        if enter {
            let list = self.cells.stars_in(self.star_cells[self.sel]);
            if list.len() > 0 {
                return Action::PickCell(self.cell_ix);
            }
            return Action::Nothing;
        }
        if is_key(k, "L") {
            return Action::PickAll;
        }
        if is_key(k, "e") {
            return Action::Export;
        }
        if k.len() == 1 && '1' <= k[0] && k[0] <= '7' {
            let c = k[0];
            self.mode = if c == '1' {
                0
            } else if c == '2' {
                1
            } else if c == '3' {
                2
            } else if c == '4' {
                3
            } else if c == '5' {
                4
            } else if c == '6' {
                5
            } else {
                6
            };
            self.view = Page::Article;
            return Action::Redraw(Redraw { header: true, diagram: true, side: false, detail: true });
        }
        if is_key(k, "C-RIGHT") {
            self.mode = (self.mode + 1) % MODE_COUNT;
            return Action::Redraw(Redraw { header: true, diagram: true, side: false, detail: false });
        }
        if is_key(k, "C-LEFT") {
            self.mode = (self.mode + MODE_COUNT - 1) % MODE_COUNT;
            return Action::Redraw(Redraw { header: true, diagram: true, side: false, detail: false });
        }
        if is_key(k, "m") {
            self.view = if self.view == Page::Modes {
                Page::Article
            } else {
                Page::Modes
            };
            self.menu_ix = self.mode;
            return Action::Redraw(Redraw { header: false, diagram: false, side: false, detail: true });
        }
        if is_key(k, "t") {
            self.track = (self.track + 1) % (TRACK_COUNT + 2);
            let detail = self.view == Page::Article;
            return Action::Redraw(Redraw { header: true, diagram: true, side: false, detail });
        }
        if is_key(k, "J") || is_key(k, "S-DOWN") {
            return Action::Scroll(Scroll::LineDown);
        }
        if is_key(k, "K") || is_key(k, "S-UP") {
            return Action::Scroll(Scroll::LineUp);
        }
        if is_key(k, " ") || is_key(k, "PgDOWN") {
            return Action::Scroll(Scroll::PageDown);
        }
        if is_key(k, "PgUP") {
            return Action::Scroll(Scroll::PageUp);
        }
        if is_key(k, "g") || is_key(k, "HOME") {
            return Action::Scroll(Scroll::Top);
        }
        if is_key(k, "G") || is_key(k, "END") {
            return Action::Scroll(Scroll::Bottom);
        }
        if is_key(k, "/") {
            return Action::Find;
        }
        if is_key(k, "w") {
            return Action::OpenPage;
        }
        if is_key(k, "c") {
            return Action::Ask;
        }
        if is_key(k, "C") {
            self.view = if self.view == Page::Chat {
                Page::Article
            } else {
                Page::Chat
            };
            return Action::Redraw(Redraw { header: false, diagram: false, side: false, detail: true });
        }
        if is_key(k, "u") {
            return Action::Rebuild;
        }
        if is_key(k, "?") {
            self.view = if self.view == Page::Help {
                Page::Article
            } else {
                Page::Help
            };
            return Action::Redraw(Redraw { header: false, diagram: false, side: false, detail: true });
        }
        if is_key(k, "RESIZE") {
            return Action::Resize;
        }
        Action::Nothing
    }
}

proof fn lemma_position_bound(list: Seq<usize>, x: usize)
    ensures
        0 <= position_or_zero(list, x),
        list.len() > 0 ==> position_or_zero(list, x) < list.len(),
{
    crate::text::lemma_first_index_facts(list, x);
}

// ───────────────────────────── laws ─────────────────────────────

/// The texts of the keys, character by character.
proof fn lemma_key_texts()
    ensures
        "q"@ == seq!['q'],
        "q"@.len() == 1,
        "ESC"@ == seq!['E', 'S', 'C'],
        "ESC"@.len() == 3,
        "UP"@ == seq!['U', 'P'],
        "UP"@.len() == 2,
        "k"@ == seq!['k'],
        "k"@.len() == 1,
        "DOWN"@ == seq!['D', 'O', 'W', 'N'],
        "DOWN"@.len() == 4,
        "j"@ == seq!['j'],
        "j"@.len() == 1,
        "ENTER"@ == seq!['E', 'N', 'T', 'E', 'R'],
        "ENTER"@.len() == 5,
        "LEFT"@ == seq!['L', 'E', 'F', 'T'],
        "LEFT"@.len() == 4,
        "h"@ == seq!['h'],
        "h"@.len() == 1,
        "RIGHT"@ == seq!['R', 'I', 'G', 'H', 'T'],
        "RIGHT"@.len() == 5,
        "l"@ == seq!['l'],
        "l"@.len() == 1,
        "TAB"@ == seq!['T', 'A', 'B'],
        "TAB"@.len() == 3,
        "S-TAB"@ == seq!['S', '-', 'T', 'A', 'B'],
        "S-TAB"@.len() == 5,
        ">"@ == seq!['>'],
        ">"@.len() == 1,
        "n"@ == seq!['n'],
        "n"@.len() == 1,
        "<"@ == seq!['<'],
        "<"@.len() == 1,
        "p"@ == seq!['p'],
        "p"@.len() == 1,
        "L"@ == seq!['L'],
        "L"@.len() == 1,
        "e"@ == seq!['e'],
        "e"@.len() == 1,
        "C-RIGHT"@ == seq!['C', '-', 'R', 'I', 'G', 'H', 'T'],
        "C-RIGHT"@.len() == 7,
        "C-LEFT"@ == seq!['C', '-', 'L', 'E', 'F', 'T'],
        "C-LEFT"@.len() == 6,
        "m"@ == seq!['m'],
        "m"@.len() == 1,
        "t"@ == seq!['t'],
        "t"@.len() == 1,
        "J"@ == seq!['J'],
        "J"@.len() == 1,
        "S-DOWN"@ == seq!['S', '-', 'D', 'O', 'W', 'N'],
        "S-DOWN"@.len() == 6,
        "K"@ == seq!['K'],
        "K"@.len() == 1,
        "S-UP"@ == seq!['S', '-', 'U', 'P'],
        "S-UP"@.len() == 4,
        " "@ == seq![' '],
        " "@.len() == 1,
        "PgDOWN"@ == seq!['P', 'g', 'D', 'O', 'W', 'N'],
        "PgDOWN"@.len() == 6,
        "PgUP"@ == seq!['P', 'g', 'U', 'P'],
        "PgUP"@.len() == 4,
        "g"@ == seq!['g'],
        "g"@.len() == 1,
        "HOME"@ == seq!['H', 'O', 'M', 'E'],
        "HOME"@.len() == 4,
        "G"@ == seq!['G'],
        "G"@.len() == 1,
        "END"@ == seq!['E', 'N', 'D'],
        "END"@.len() == 3,
        "/"@ == seq!['/'],
        "/"@.len() == 1,
        "w"@ == seq!['w'],
        "w"@.len() == 1,
        "c"@ == seq!['c'],
        "c"@.len() == 1,
        "C"@ == seq!['C'],
        "C"@.len() == 1,
        "u"@ == seq!['u'],
        "u"@.len() == 1,
        "?"@ == seq!['?'],
        "?"@.len() == 1,
        "RESIZE"@ == seq!['R', 'E', 'S', 'I', 'Z', 'E'],
        "RESIZE"@.len() == 6,
{
    reveal_strlit("q");
    reveal_strlit("ESC");
    reveal_strlit("UP");
    reveal_strlit("k");
    reveal_strlit("DOWN");
    reveal_strlit("j");
    reveal_strlit("ENTER");
    reveal_strlit("LEFT");
    reveal_strlit("h");
    reveal_strlit("RIGHT");
    reveal_strlit("l");
    reveal_strlit("TAB");
    reveal_strlit("S-TAB");
    reveal_strlit(">");
    reveal_strlit("n");
    reveal_strlit("<");
    reveal_strlit("p");
    reveal_strlit("L");
    reveal_strlit("e");
    reveal_strlit("C-RIGHT");
    reveal_strlit("C-LEFT");
    reveal_strlit("m");
    reveal_strlit("t");
    reveal_strlit("J");
    reveal_strlit("S-DOWN");
    reveal_strlit("K");
    reveal_strlit("S-UP");
    reveal_strlit(" ");
    reveal_strlit("PgDOWN");
    reveal_strlit("PgUP");
    reveal_strlit("g");
    reveal_strlit("HOME");
    reveal_strlit("G");
    reveal_strlit("END");
    reveal_strlit("/");
    reveal_strlit("w");
    reveal_strlit("c");
    reveal_strlit("C");
    reveal_strlit("u");
    reveal_strlit("?");
    reveal_strlit("RESIZE");
}

/// Ctrl+→ then Ctrl+← leaves the explorer as it was: the color modes form
/// a cycle.
pub proof fn law_mode_round_trip(m: AppModel, m1: AppModel, a1: Action, m2: AppModel, a2: Action)
    requires
        m.valid(),
        key_effect(m, "C-RIGHT"@, m1, a1),
        key_effect(m1, "C-LEFT"@, m2, a2),
    ensures
        m2 == m,
{
    lemma_key_texts();
}

/// Pressing `t` walks the tracks off → 1 M☉ → 5 M☉ → 15 M☉ → all and back
/// to off: five presses leave the explorer as it was.
pub proof fn law_tracks_cycle(
    m0: AppModel,
    m1: AppModel,
    a1: Action,
    m2: AppModel,
    a2: Action,
    m3: AppModel,
    a3: Action,
    m4: AppModel,
    a4: Action,
    m5: AppModel,
    a5: Action,
)
    requires
        m0.valid(),
        key_effect(m0, "t"@, m1, a1),
        key_effect(m1, "t"@, m2, a2),
        key_effect(m2, "t"@, m3, a3),
        key_effect(m3, "t"@, m4, a4),
        key_effect(m4, "t"@, m5, a5),
    ensures
        m5 == m0,
        m1.track == (m0.track + 1) % 5,
{
    lemma_key_texts();
}

/// `?` opens the help and `?` again closes it: from the article view two
/// presses leave the explorer as it was.
pub proof fn law_help_round_trip(m: AppModel, m1: AppModel, a1: Action, m2: AppModel, a2: Action)
    requires
        m.valid(),
        m.view == Page::Article,
        key_effect(m, "?"@, m1, a1),
        key_effect(m1, "?"@, m2, a2),
    ensures
        m1.view == Page::Help,
        m2 == m,
{
    lemma_key_texts();
}

proof fn lemma_chat_key(m: AppModel, new: AppModel, act: Action)
    requires
        key_effect(m, "C"@, new, act),
    ensures
        new == (AppModel { view: toggled(m.view, Page::Chat), ..m }),
{
    lemma_key_texts();
}

/// `C` shows the conversation and `C` again hides it: from the article
/// view two presses leave the explorer as it was.
pub proof fn law_chat_round_trip(m: AppModel, m1: AppModel, a1: Action, m2: AppModel, a2: Action)
    requires
        m.valid(),
        m.view == Page::Article,
        key_effect(m, "C"@, m1, a1),
        key_effect(m1, "C"@, m2, a2),
    ensures
        m1.view == Page::Chat,
        m2 == m,
{
    lemma_chat_key(m, m1, a1);
    lemma_chat_key(m1, m2, a2);
}

/// ESC quits from the article view and returns to it from any other view.
pub proof fn law_escape(m: AppModel, m1: AppModel, a1: Action)
    requires
        m.valid(),
        key_effect(m, "ESC"@, m1, a1),
    ensures
        m.view == Page::Article ==> a1 == Action::Quit && m1 == m,
        m.view != Page::Article ==> a1 != Action::Quit && m1.view == Page::Article,
{
    lemma_key_texts();
}

/// The brightness tour: `n` moves to the next star by apparent brightness
/// and `p` comes back to the star it started from (its conversation is
/// dropped on the way).
pub proof fn law_brightness_round_trip(m: AppModel, m1: AppModel, a1: Action, m2: AppModel, a2: Action)
    requires
        m.valid(),
        m.sel + 1 < m.star_cells.len(),
        key_effect(m, "n"@, m1, a1),
        key_effect(m1, "p"@, m2, a2),
    ensures
        m1.sel == m.sel + 1,
        m2.sel == m.sel,
        m2.view == Page::Article,
        m2.star_cells == m.star_cells,
{
    lemma_key_texts();
}

/// Tab then Shift-Tab comes back to the star it started from, when the
/// stars were grouped from the current catalog and more than one shares
/// the selected star's cell.
pub proof fn law_tab_round_trip(m: AppModel, m1: AppModel, a1: Action, m2: AppModel, a2: Action)
    requires
        m.valid(),
        m.grid_current(),
        m.cur_cell_stars().len() >= 2,
        key_effect(m, "TAB"@, m1, a1),
        key_effect(m1, "S-TAB"@, m2, a2),
    ensures
        m1.sel != m.sel,
        m1.star_cells[m1.sel] == m.star_cells[m.sel],
        m2.sel == m.sel,
        m2.view == Page::Article,
{
    lemma_key_texts();
    let c = m.star_cells[m.sel];
    let list = m.cur_cell_stars();
    assert(list == members(m.star_cells, c));
    crate::grid::lemma_members(m.star_cells, c);
    let len = list.len() as int;
    assert(list.contains(m.sel as usize));
    let i = choose|i: int| 0 <= i < len && list[i] == m.sel as usize;
    lemma_sorted_position(list, i);
    let at = position_or_zero(list, m.sel as usize);
    assert(at == i);
    let next = cycled_index(at, len, true);
    assert(0 <= next < len) by (nonlinear_arith)
        requires
            next == (at + 1) % len,
            len >= 2,
    ;
    assert(next != at) by (nonlinear_arith)
        requires
            next == (at + 1) % len,
            0 <= at < len,
            len >= 2,
    ;
    let t = list[next];
    assert(t != m.sel as usize);
    assert(m.star_cells[t as int] == c);
    lemma_sorted_position(list, next);
    assert(m1.sel == t);
    assert(m1.grid == m.grid);
    assert(m1.star_cells == m.star_cells);
    assert(m1.cur_cell_stars() == list);
    assert(position_or_zero(list, t) == next);
    let back = cycled_index(next, len, false);
    assert(back == at) by (nonlinear_arith)
        requires
            next == (at + 1) % len,
            back == (next + len - 1) % len,
            0 <= at < len,
            len >= 2,
    ;
}

/// In a strictly increasing list, an element's first position is where it
/// stands.
proof fn lemma_sorted_position(list: Seq<usize>, i: int)
    requires
        0 <= i < list.len(),
        forall|a: int, b: int| 0 <= a < b < list.len() ==> #[trigger] list[a] < #[trigger] list[b],
    ensures
        position_or_zero(list, list[i]) == i,
{
    assert forall|j: int| 0 <= j < i implies list[j] != list[i] by {
        assert(list[j] < list[i]);
    }
    lemma_first_index_found(list, list[i], i);
}

} // verus!

use vstd::prelude::*;
use vstd::string::StringSliceAdditionalSpecFns;
use crate::keyboard::{Key, KeyCode};
use crate::vga_text::{
    blank, clear_row, clear_screen, make_color, row_cleared, spec_make_color, write_at, written_at,
    TextBuffer, VgaColor, COLOR,
};

verus! {

/// A program the menu can start.
pub trait Application {
    /// The name the menu lists it under.
    fn name(&self) -> &'static str;
}

/// The line of help below the menu entries.
pub const MENU_HINT: &'static str = "Arrow Keys: Navigate  |  Enter: Select";

/// A titled list of applications, given by their names.
pub struct Menu {
    title: &'static str,
    items: Vec<&'static str>,
}

/// The state of an open menu: the highlighted entry, the number of entries, whether
/// it still waits for a choice, and the title and entry names it draws.
pub struct MenuState {
    selected: usize,
    num_items: usize,
    running: bool,
    title: &'static str,
    items: Vec<&'static str>,
}

/// The bytes of each name.
pub open spec fn names_bytes(items: Seq<&'static str>) -> Seq<Seq<u8>> {
    items.map_values(|s: &'static str| s.spec_bytes())
}

/// The attribute of a menu entry: black on cyan when highlighted, white on black else.
pub open spec fn entry_color(i: int, selected: int) -> u8 {
    if i == selected {
        spec_make_color(VgaColor::Black, VgaColor::Cyan)
    } else {
        spec_make_color(VgaColor::White, VgaColor::Black)
    }
}

/// The screen with the first `k` entries drawn: entry `i` fills row `5 + i` in its
/// attribute and shows its name from column 10.
pub open spec fn menu_rows(cells: Seq<u16>, items: Seq<Seq<u8>>, selected: int, k: nat) -> Seq<u16>
    decreases k,
{
    if k == 0 {
        cells
    } else {
        let i = k - 1;
        let prev = menu_rows(cells, items, selected, (k - 1) as nat);
        let color = entry_color(i, selected);
        written_at(row_cleared(prev, 5 + i, color), 5 + i, 10, items[i], color)
    }
}

/// The screen a menu shows: the title at row 2 in yellow, the entries from row 5, and
/// the help line two rows below the last entry, on an otherwise blank screen.
pub open spec fn menu_screen(title: Seq<u8>, items: Seq<Seq<u8>>, selected: int) -> Seq<u16> {
    let c0 = Seq::new(2000, |i: int| blank(COLOR));
    let c1 = written_at(c0, 2, 5, title, spec_make_color(VgaColor::Yellow, VgaColor::Black));
    let c2 = menu_rows(c1, items, selected, items.len());
    written_at(c2, 5 + items.len() as int + 2, 5, MENU_HINT.spec_bytes(), spec_make_color(VgaColor::DarkGray, VgaColor::Black))
}

/// Drawing the entries keeps the screen's size.
proof fn lemma_menu_rows_len(cells: Seq<u16>, items: Seq<Seq<u8>>, selected: int, k: nat)
    ensures
        menu_rows(cells, items, selected, k).len() == cells.len(),
    decreases k,
{
    if k > 0 {
        lemma_menu_rows_len(cells, items, selected, (k - 1) as nat);
    }
}

/// Once entry `i` is drawn, the first ten cells of its row hold blanks in its attribute,
/// whatever entries are drawn after it.
proof fn lemma_menu_rows_entry(cells: Seq<u16>, items: Seq<Seq<u8>>, selected: int, k: nat, i: int, c: int)
    requires
        cells.len() == 2000,
        0 <= i < k,
        5 + i < 25,
        0 <= c < 10,
    ensures
        menu_rows(cells, items, selected, k)[(5 + i) * 80 + c] == blank(entry_color(i, selected)),
    decreases k,
{
    let j = k - 1;
    let prev = menu_rows(cells, items, selected, j as nat);
    lemma_menu_rows_len(cells, items, selected, j as nat);
    if j > i {
        lemma_menu_rows_entry(cells, items, selected, j as nat, i, c);
        assert((5 + i) * 80 + c < (5 + j) * 80);
    }
}

/// In a drawn menu exactly the highlighted entry stands out: the row of entry `i`
/// starts with blanks in black on cyan when `i` is the highlighted entry, and in white
/// on black for every other entry.
pub proof fn lemma_menu_highlights_one_entry(title: Seq<u8>, items: Seq<Seq<u8>>, selected: int, i: int, c: int)
    requires
        0 <= i < items.len(),
        5 + i < 25,
        0 <= c < 10,
    ensures
        menu_screen(title, items, selected)[(5 + i) * 80 + c] == (if i == selected { 0x3020u16 } else { 0x0F20u16 }),
{
    let c0 = Seq::new(2000, |p: int| blank(COLOR));
    let c1 = written_at(c0, 2, 5, title, spec_make_color(VgaColor::Yellow, VgaColor::Black));
    let c2 = menu_rows(c1, items, selected, items.len());
    lemma_menu_rows_len(c1, items, selected, items.len());
    lemma_menu_rows_entry(c1, items, selected, items.len(), i, c);
    assert((5 + i) * 80 + c < (5 + items.len() as int + 2) * 80 + 5);
    assert(spec_make_color(VgaColor::Black, VgaColor::Cyan) == 0x30u8);
    assert(spec_make_color(VgaColor::White, VgaColor::Black) == 0x0Fu8);
}

impl Menu {
    pub closed spec fn title(&self) -> &'static str {
        self.title
    }

    pub closed spec fn items(&self) -> Seq<&'static str> {
        self.items@
    }

    /// A menu titled `title` listing the applications named `items`.
    pub fn new(title: &'static str, items: Vec<&'static str>) -> (m: Menu)
        ensures
            m.title() == title,
            m.items() == items@,
    {
        Menu { title, items }
    }

    /// Opens the menu: the first entry highlighted, waiting for a choice.
    pub fn open(&self, state: &mut MenuState)
        requires
            self.items().len() + 7 <= usize::MAX,
        ensures
            final(state).wf(),
            final(state).selected() == 0,
            final(state).num_items() == self.items().len(),
            final(state).running(),
            final(state).title() == self.title(),
            final(state).items() == self.items(),
    {
        let mut items: Vec<&'static str> = Vec::new();
        let mut i: usize = 0;
        while i < self.items.len()
            invariant
                i <= self.items@.len(),
                items@ == self.items@.take(i as int),
            decreases self.items@.len() - i,
        {
            items.push(self.items[i]);
            i = i + 1;
            assert(items@ =~= self.items@.take(i as int));
        }
        assert(items@ =~= self.items@);
        state.selected = 0;
        state.num_items = self.items.len();
        state.running = true;
        state.title = self.title;
        state.items = items;
    }

    /// The entry chosen in a menu that no longer waits, if it names an application.
    pub fn chosen(&self, state: &MenuState) -> (r: Option<usize>)
        ensures
            r == (if !state.running() && state.selected() < self.items().len() {
                Some(state.selected())
            } else {
                None::<usize>
            }),
    {
        if !state.running && state.selected < self.items.len() {
            Some(state.selected)
        } else {
            None
        }
    }
}

impl MenuState {
    pub closed spec fn selected(&self) -> usize {
        self.selected
    }

    pub closed spec fn num_items(&self) -> usize {
        self.num_items
    }

    pub closed spec fn running(&self) -> bool {
        self.running
    }

    pub closed spec fn title(&self) -> &'static str {
        self.title
    }

    pub closed spec fn items(&self) -> Seq<&'static str> {
        self.items@
    }

    /// The entry count matches the names, with room below the entries for the help
    /// line, and the highlight is on an entry, or on the first place of an empty menu.
    pub closed spec fn wf(&self) -> bool {
        &&& self.num_items == self.items@.len()
        &&& self.num_items + 7 <= usize::MAX
        &&& (self.selected == 0 || self.selected < self.num_items)
    }

    /// The state before any menu opens: no title, no entries, not waiting.
    pub fn new() -> (s: MenuState)
        ensures
            s.wf(),
            s.selected() == 0,
            s.num_items() == 0,
            !s.running(),
            s.title()@ == Seq::<char>::empty(),
            s.items() == Seq::<&'static str>::empty(),
    {
        proof {
            reveal_strlit("");
        }
        let s = MenuState { selected: 0, num_items: 0, running: false, title: "", items: Vec::new() };
        assert(s.items@ =~= Seq::<&'static str>::empty());
        s
    }

    /// Whether the menu still waits for a choice.
    pub fn is_running(&self) -> (r: bool)
        ensures
            r == self.running(),
    {
        self.running
    }

    /// The highlighted entry.
    pub fn selected_item(&self) -> (r: usize)
        ensures
            r == self.selected(),
    {
        self.selected
    }
}

/// Draws the menu on a blank screen: the title, the entries with the highlighted one
/// in black on cyan, and the help line. The cursor ends at the top left.
pub fn draw_menu(state: &MenuState, screen: &mut TextBuffer)
    requires
        state.wf(),
        old(screen).wf(),
    ensures
        final(screen).wf(),
        final(screen).cursor() == 0,
        final(screen).cells() == menu_screen(state.title().spec_bytes(), names_bytes(state.items()), state.selected() as int),
{
    clear_screen(screen);
    let ghost c0 = screen.cells();
    assert(c0 =~= Seq::new(2000, |i: int| blank(COLOR)));

    let normal_color = make_color(VgaColor::White, VgaColor::Black);
    let highlight_color = make_color(VgaColor::Black, VgaColor::Cyan);

    write_at(screen, 2, 5, state.title, make_color(VgaColor::Yellow, VgaColor::Black));
    let ghost c1 = screen.cells();
    let ghost names = names_bytes(state.items@);

    let start_row: usize = 5;
    let mut i: usize = 0;
    while i < state.num_items
        invariant
            i <= state.num_items,
            start_row == 5,
            state.wf(),
            screen.wf(),
            screen.cursor() == 0,
            names == names_bytes(state.items@),
            normal_color == spec_make_color(VgaColor::White, VgaColor::Black),
            highlight_color == spec_make_color(VgaColor::Black, VgaColor::Cyan),
            screen.cells() == menu_rows(c1, names, state.selected as int, i as nat),
        decreases state.num_items - i,
    {
        assert(state.num_items + 7 <= usize::MAX);
        let row = start_row + i;
        let color = if i == state.selected { highlight_color } else { normal_color };
        assert(color == entry_color(i as int, state.selected as int));
        clear_row(screen, row, color);
        let item = state.items[i];
        assert(names[i as int] == item.spec_bytes());
        write_at(screen, row, 10, item, color);
        i = i + 1;
    }
    write_at(screen, start_row + state.num_items + 2, 5, MENU_HINT, make_color(VgaColor::DarkGray, VgaColor::Black));
}

/// What a key press does to an open menu: the arrows move the highlight within the
/// entries, Enter (or a newline) ends the wait; anything else does nothing.
pub open spec fn menu_key_effect(selected: usize, num_items: usize, running: bool, key: Key) -> (usize, bool) {
    match key {
        Key::RawKey(KeyCode::ArrowUp) => (if selected > 0 { (selected - 1) as usize } else { selected }, running),
        Key::RawKey(KeyCode::ArrowDown) => (if selected + 1 < num_items { (selected + 1) as usize } else { selected }, running),
        Key::RawKey(KeyCode::Return) => (selected, false),
        Key::Unicode(c) => if c == '\n' { (selected, false) } else { (selected, running) },
        _ => (selected, running),
    }
}

/// Whatever keys arrive, the highlight of an open menu stays on one of its entries.
pub proof fn lemma_highlight_on_entry(state: MenuState, key: Key)
    requires
        state.wf(),
        state.num_items() > 0,
    ensures
        menu_key_effect(state.selected(), state.num_items(), state.running(), key).0 < state.num_items(),
{
}

/// Keys other than the arrows, Enter and a newline leave an open menu as it is: the
/// same entry highlighted, still waiting or not as before.
pub proof fn lemma_other_keys_ignored(selected: usize, num_items: usize, running: bool, key: Key)
    requires
        key != Key::RawKey(KeyCode::ArrowUp),
        key != Key::RawKey(KeyCode::ArrowDown),
        key != Key::RawKey(KeyCode::Return),
        key != Key::Unicode('\n'),
    ensures
        menu_key_effect(selected, num_items, running, key) == (selected, running),
{
}

/// Enter or a newline ends the wait and keeps the highlight; the arrows move it one
/// entry up or down within the entries and keep the menu waiting as it was.
pub proof fn lemma_menu_keys(selected: usize, num_items: usize, running: bool)
    ensures
        menu_key_effect(selected, num_items, running, Key::RawKey(KeyCode::Return)) == (selected, false),
        menu_key_effect(selected, num_items, running, Key::Unicode('\n')) == (selected, false),
        menu_key_effect(selected, num_items, running, Key::RawKey(KeyCode::ArrowUp)).1 == running,
        menu_key_effect(selected, num_items, running, Key::RawKey(KeyCode::ArrowUp)).0 as int
            == (if selected > 0 { selected - 1 } else { selected as int }),
        menu_key_effect(selected, num_items, running, Key::RawKey(KeyCode::ArrowDown)).1 == running,
        menu_key_effect(selected, num_items, running, Key::RawKey(KeyCode::ArrowDown)).0 as int
            == (if selected + 1 < num_items { selected + 1 } else { selected as int }),
{
}

/// Whether a key press redraws the menu: the arrows do.
pub open spec fn menu_key_redraws(key: Key) -> bool {
    key == Key::RawKey(KeyCode::ArrowUp) || key == Key::RawKey(KeyCode::ArrowDown)
}

/// The key handler of an open menu: moves the highlight and redraws on the arrows,
/// ends the wait on Enter.
pub fn menu_key_handler(state: &mut MenuState, key: Key, screen: &mut TextBuffer)
    requires
        old(state).wf(),
        old(screen).wf(),
    ensures
        final(state).wf(),
        (final(state).selected(), final(state).running()) == menu_key_effect(old(state).selected(), old(state).num_items(), old(state).running(), key),
        key != Key::RawKey(KeyCode::ArrowUp) && key != Key::RawKey(KeyCode::ArrowDown)
            && key != Key::RawKey(KeyCode::Return) && key != Key::Unicode('\n')
            ==> final(state).selected() == old(state).selected() && final(state).running() == old(state).running(),
        final(state).num_items() == old(state).num_items(),
        final(state).title() == old(state).title(),
        final(state).items() == old(state).items(),
        final(screen).wf(),
        menu_key_redraws(key) ==> final(screen).cursor() == 0
            && final(screen).cells() == menu_screen(final(state).title().spec_bytes(), names_bytes(final(state).items()), final(state).selected() as int),
        !menu_key_redraws(key) ==> *final(screen) == *old(screen),
{
    match key {
        Key::RawKey(KeyCode::ArrowUp) => {
            if state.selected > 0 {
                state.selected = state.selected - 1;
            }
            draw_menu(state, screen);
        },
        Key::RawKey(KeyCode::ArrowDown) => {
            if state.selected + 1 < state.num_items {
                state.selected = state.selected + 1;
            }
            draw_menu(state, screen);
        },
        Key::RawKey(KeyCode::Return) => {
            state.running = false;
        },
        Key::Unicode(c) => {
            if c == '\n' {
                state.running = false;
            }
        },
        _ => {},
    }
}

} // verus!

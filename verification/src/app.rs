//! The state of the terminal interface and the decisions it makes on each key.
//!
//! Reading and writing the catalog and list files is left to the caller: an
//! operation that needs it returns an [`Effect`], and the caller hands the
//! outcome back to the method that finishes the operation.

use vstd::prelude::*;

use crate::catalog::{
    catalog_items_of, items_sorted, load_error_text, section_names, Catalog, LoadError, Section,
};
use crate::list::GroceryList;
use crate::search::{as_strs, find_equal, find_ignore_case, first_equal, first_ignore_case};
use crate::sorting::{is_sorted_by_lowercase, sort_strs_by_lowercase};
use crate::suggest::{
    dedup_lower, filter_lower_prefix, filter_lower_prefix_dedup, filter_prefix, lower_prefix_filter,
    open_command_list, open_commands, prefix_filter,
};
use crate::text::{
    concat2, concat3, eq_ignore_ascii_case, lowercase, pop_char, push_char, starts_with, str_eq, str_starts_with, str_strip_prefix,
    to_lowercase, trim, trim_str,
};

verus! {

/// The number of entries of the main menu: List, Catalog and Exit.
pub const MENU_LEN: usize = 3;

/// Which screen the interface shows, and so what the typed line means.
#[derive(Clone, Copy, PartialEq, Eq, Structural, Debug)]
pub enum Mode {
    Menu,
    List,
    AddItem,
    RemoveItem,
    Catalog,
    CatalogSection,
    CatalogAddItem,
}

/// Outside work that an operation asks of its caller before it can finish.
pub enum Effect {
    /// Nothing to do.
    Done,
    /// Load the catalog and the working list, then call [`App::open_list`].
    OpenList,
    /// Load the catalog, then call [`App::open_catalog`].
    OpenCatalog,
    /// Load the catalog, then call [`App::format_catalog`].
    FormatCatalog,
    /// Load the catalog, then call [`App::add_catalog_item`] with `name`.
    AddCatalogItem { name: String },
    /// Save `catalog`, then call [`App::finish_catalog_save`] with it and `message`.
    SaveCatalog { catalog: Catalog, message: String },
    /// Save the working list, then call [`App::finish_list_save`] with `message`.
    SaveList { message: String },
}

/// A key press, as far as the interface tells keys apart.
#[derive(Clone, Copy, Debug)]
pub enum Key {
    Enter,
    Char(char),
    Backspace,
    Up,
    Down,
    Tab,
    Esc,
    Other,
}

/// The whole state of the interface.
pub struct App {
    pub mode: Mode,
    pub menu_selected: usize,
    pub working_list: GroceryList,
    pub catalog_sections: Vec<Section>,
    pub current_section: Option<String>,
    pub input: String,
    pub suggestions: Vec<String>,
    pub selected_suggestion: usize,
    pub status: Option<String>,
    pub should_quit: bool,
}

/// The commands of the list screen.
pub open spec fn list_commands() -> Seq<Seq<char>> {
    seq!["/add"@, "/remove"@, "/clear"@]
}

/// The commands of the catalog screen.
pub open spec fn catalog_commands() -> Seq<Seq<char>> {
    seq!["/format"@, "/open"@]
}

/// The commands of a catalog section's screen.
pub open spec fn section_commands() -> Seq<Seq<char>> {
    seq!["/add"@]
}

/// The suggestions for what has been typed on the screen of `app`.
pub open spec fn suggestions_for(app: App) -> Seq<Seq<char>> {
    let input = app.input@;
    if input.len() == 0 {
        seq![]
    } else {
        match app.mode {
            Mode::Menu => seq![],
            Mode::List => prefix_filter(list_commands(), input),
            Mode::AddItem => lower_prefix_filter(catalog_items_of(app.catalog_sections@), lowercase(input)),
            Mode::RemoveItem => dedup_lower(
                lower_prefix_filter(app.working_list.items.deep_view(), lowercase(input)),
            ),
            Mode::Catalog => if starts_with(input, "/open "@) {
                open_commands(
                    section_names(app.catalog_sections@),
                    lowercase(input.subrange("/open "@.len() as int, input.len() as int)),
                )
            } else {
                prefix_filter(catalog_commands(), input)
            },
            Mode::CatalogSection => prefix_filter(section_commands(), input),
            Mode::CatalogAddItem => seq![],
        }
    }
}

/// The position after `i` among `n`, wrapping to the first.
pub open spec fn next_index(i: int, n: int) -> int {
    (i + 1) % n
}

/// The position before `i` among `n`, wrapping to the last.
pub open spec fn prev_index(i: int, n: int) -> int {
    if i == 0 {
        n - 1
    } else {
        i - 1
    }
}

/// The screen that one step back leads to.
pub open spec fn back_mode(m: Mode) -> Mode {
    match m {
        Mode::AddItem | Mode::RemoveItem => Mode::List,
        Mode::List | Mode::Catalog => Mode::Menu,
        Mode::CatalogAddItem => Mode::CatalogSection,
        Mode::CatalogSection => Mode::Catalog,
        Mode::Menu => Mode::Menu,
    }
}

/// How many steps back lead from a screen to the menu.
pub open spec fn mode_depth(m: Mode) -> nat {
    match m {
        Mode::Menu => 0,
        Mode::List | Mode::Catalog => 1,
        Mode::AddItem | Mode::RemoveItem | Mode::CatalogSection => 2,
        Mode::CatalogAddItem => 3,
    }
}

/// The working list, the catalog and the open section are as they were.
pub open spec fn same_data(pre: App, post: App) -> bool {
    &&& post.working_list == pre.working_list
    &&& post.catalog_sections == pre.catalog_sections
    &&& post.current_section == pre.current_section
}

/// The menu and suggestion selections and the quit flag are as they were.
pub open spec fn same_selection(pre: App, post: App) -> bool {
    &&& post.menu_selected == pre.menu_selected
    &&& post.selected_suggestion == pre.selected_suggestion
    &&& post.should_quit == pre.should_quit
}

/// The typed line and its suggestions are as they were.
pub open spec fn same_line(pre: App, post: App) -> bool {
    &&& post.input == pre.input
    &&& post.suggestions == pre.suggestions
}

/// `eff` asks to save the working list and then to show `msg`.
pub open spec fn saves_list(eff: Effect, msg: Seq<char>) -> bool {
    eff matches Effect::SaveList { message } && message@ == msg
}

/// Nothing but the screen changed, to `m`.
pub open spec fn switched_to(pre: App, post: App, eff: Effect, m: Mode) -> bool {
    &&& same_data(pre, post)
    &&& post.mode == m
    &&& post.status == pre.status
    &&& eff is Done
}

/// Nothing but the status changed, to the message for the unknown command `cmd`.
pub open spec fn unknown_command(pre: App, cmd: Seq<char>, post: App, eff: Effect) -> bool {
    &&& same_data(pre, post)
    &&& post.mode == pre.mode
    &&& post.status.deep_view() == Some("unknown command: "@ + cmd)
    &&& eff is Done
}

/// What clearing the working list does.
pub open spec fn clear_list_post(pre: App, post: App, eff: Effect) -> bool {
    &&& post.working_list.items@.len() == 0
    &&& post.catalog_sections == pre.catalog_sections
    &&& post.current_section == pre.current_section
    &&& post.mode == pre.mode
    &&& post.status == pre.status
    &&& saves_list(eff, "Cleared list"@)
}

/// What the list screen does with the command `cmd`.
pub open spec fn run_list_command_post(pre: App, cmd: Seq<char>, post: App, eff: Effect) -> bool {
    if cmd == "/add"@ {
        switched_to(pre, post, eff, Mode::AddItem)
    } else if cmd == "/remove"@ {
        switched_to(pre, post, eff, Mode::RemoveItem)
    } else if cmd == "/clear"@ {
        clear_list_post(pre, post, eff)
    } else {
        unknown_command(pre, cmd, post, eff)
    }
}

/// What opening the catalog section `name` does: the first section whose name
/// equals it, ASCII letters compared without case, is opened.
pub open spec fn open_catalog_section_post(pre: App, name: Seq<char>, post: App, eff: Effect) -> bool {
    &&& eff is Done
    &&& post.working_list == pre.working_list
    &&& post.catalog_sections == pre.catalog_sections
    &&& match first_ignore_case(section_names(pre.catalog_sections@), name) {
        None => {
            &&& post.current_section == pre.current_section
            &&& post.mode == pre.mode
            &&& post.status.deep_view() == Some("No such section '"@ + name + "'"@)
        },
        Some(k) => {
            &&& post.current_section.deep_view() == Some(pre.catalog_sections@[k].name@)
            &&& post.status is None
            &&& post.mode == Mode::CatalogSection
        },
    }
}

/// What the catalog screen does with the command `cmd`.
pub open spec fn run_catalog_command_post(pre: App, cmd: Seq<char>, post: App, eff: Effect) -> bool {
    if cmd == "/format"@ {
        &&& same_data(pre, post)
        &&& post.mode == pre.mode
        &&& post.status == pre.status
        &&& eff is FormatCatalog
    } else if starts_with(cmd, "/open "@) {
        open_catalog_section_post(pre, trim(cmd.subrange("/open "@.len() as int, cmd.len() as int)), post, eff)
    } else {
        unknown_command(pre, cmd, post, eff)
    }
}

/// What a catalog section's screen does with the command `cmd`.
pub open spec fn run_catalog_section_command_post(pre: App, cmd: Seq<char>, post: App, eff: Effect) -> bool {
    if cmd == "/add"@ {
        switched_to(pre, post, eff, Mode::CatalogAddItem)
    } else {
        unknown_command(pre, cmd, post, eff)
    }
}

/// What adding the item `name` to the working list does: the first catalog item
/// that equals it, ASCII letters compared without case, is appended.
pub open spec fn add_item_post(pre: App, name: Seq<char>, post: App, eff: Effect) -> bool {
    let cands = catalog_items_of(pre.catalog_sections@);
    &&& post.catalog_sections == pre.catalog_sections
    &&& post.current_section == pre.current_section
    &&& post.mode == pre.mode
    &&& match first_ignore_case(cands, name) {
        None => {
            &&& post.working_list == pre.working_list
            &&& post.status.deep_view() == Some("Unknown item '"@ + name + "' — not in the catalog"@)
            &&& eff is Done
        },
        Some(i) => {
            &&& post.working_list.items.deep_view() == pre.working_list.items.deep_view().push(cands[i])
            &&& post.status == pre.status
            &&& saves_list(eff, "Added "@ + cands[i])
        },
    }
}

/// What removing the item `name` from the working list does: the first item
/// that equals it, ASCII letters compared without case, is removed.
pub open spec fn remove_item_post(pre: App, name: Seq<char>, post: App, eff: Effect) -> bool {
    let items = pre.working_list.items.deep_view();
    &&& post.catalog_sections == pre.catalog_sections
    &&& post.current_section == pre.current_section
    &&& post.mode == pre.mode
    &&& match first_ignore_case(items, name) {
        None => {
            &&& post.working_list == pre.working_list
            &&& post.status.deep_view() == Some("No such item '"@ + name + "' on the list"@)
            &&& eff is Done
        },
        Some(i) => {
            &&& post.working_list.items.deep_view() == items.remove(i)
            &&& post.status == pre.status
            &&& saves_list(eff, "Removed "@ + items[i])
        },
    }
}

/// What submitting the typed line does, besides clearing it and its suggestions:
/// the trimmed line goes to the screen's handler.
pub open spec fn submit_post(pre: App, post: App, eff: Effect) -> bool {
    let text = trim(pre.input@);
    if text.len() == 0 {
        &&& same_data(pre, post)
        &&& post.mode == pre.mode
        &&& post.status == pre.status
        &&& eff is Done
    } else {
        match pre.mode {
            Mode::Menu => {
                &&& same_data(pre, post)
                &&& post.mode == pre.mode
                &&& post.status == pre.status
                &&& eff is Done
            },
            Mode::List => run_list_command_post(pre, text, post, eff),
            Mode::AddItem => add_item_post(pre, text, post, eff),
            Mode::RemoveItem => remove_item_post(pre, text, post, eff),
            Mode::Catalog => run_catalog_command_post(pre, text, post, eff),
            Mode::CatalogSection => run_catalog_section_command_post(pre, text, post, eff),
            Mode::CatalogAddItem => {
                &&& same_data(pre, post)
                &&& post.mode == pre.mode
                &&& match pre.current_section {
                    None => post.status.deep_view() == Some("No section open"@) && eff is Done,
                    Some(_) => {
                        &&& post.status == pre.status
                        &&& eff matches Effect::AddCatalogItem { name } && name@ == text
                    },
                }
            },
        }
    }
}

/// What adding the item `name` to the open section does, given the loaded catalog.
pub open spec fn add_catalog_item_post(
    pre: App,
    name: Seq<char>,
    loaded: Result<Catalog, LoadError>,
    post: App,
    eff: Effect,
) -> bool {
    &&& same_data(pre, post)
    &&& post.mode == pre.mode
    &&& match pre.current_section {
        None => post.status.deep_view() == Some("No section open"@) && eff is Done,
        Some(sec) => match loaded {
            Err(e) => post.status.deep_view() == Some(load_error_text(e)) && eff is Done,
            Ok(c) => match first_equal(section_names(c.sections@), sec@) {
                None => post.status.deep_view() == Some("No such section '"@ + sec@ + "'"@) && eff is Done,
                Some(k) => {
                    &&& post.status == pre.status
                    &&& eff matches Effect::SaveCatalog { catalog, message }
                    &&& message@ == "Added "@ + name + " to "@ + sec@
                    &&& catalog.sections@.len() == c.sections@.len()
                    &&& forall|j: int|
                        0 <= j < c.sections@.len() && j != k ==> #[trigger] catalog.sections@[j] == c.sections@[j]
                    &&& catalog.sections@[k].name == c.sections@[k].name
                    &&& is_sorted_by_lowercase(
                        c.sections@[k].items.deep_view().push(name),
                        catalog.sections@[k].items.deep_view(),
                    )
                },
            },
        },
    }
}

/// An item of the working list belongs to a section when one of the section's
/// items equals it, ASCII letters compared without case.
pub open spec fn in_section(sec: Section, item: Seq<char>) -> bool {
    first_ignore_case(sec.items.deep_view(), item) is Some
}

/// The items of `items` that belong to `sec`, in list order.
pub open spec fn section_members(sec: Section, items: Seq<Seq<char>>) -> Seq<Seq<char>>
    decreases items.len(),
{
    if items.len() == 0 {
        seq![]
    } else if in_section(sec, items.last()) {
        section_members(sec, items.drop_last()).push(items.last())
    } else {
        section_members(sec, items.drop_last())
    }
}

/// The positions of the sections that at least one item of `items` belongs to, in order.
pub open spec fn listed_sections(secs: Seq<Section>, items: Seq<Seq<char>>) -> Seq<int>
    decreases secs.len(),
{
    if secs.len() == 0 {
        seq![]
    } else if section_members(secs.last(), items).len() > 0 {
        listed_sections(secs.drop_last(), items).push(secs.len() - 1)
    } else {
        listed_sections(secs.drop_last(), items)
    }
}

/// What acting on the selected menu entry does.
pub open spec fn confirm_menu_post(pre: App, post: App, eff: Effect) -> bool {
    &&& pre.menu_selected == 0 ==> eff is OpenList && post.should_quit == pre.should_quit
    &&& pre.menu_selected == 1 ==> eff is OpenCatalog && post.should_quit == pre.should_quit
    &&& pre.menu_selected == 2 ==> eff is Done && post.should_quit
    &&& post.mode == pre.mode
    &&& post.menu_selected == pre.menu_selected
    &&& post.selected_suggestion == pre.selected_suggestion
    &&& post.status == pre.status
    &&& same_line(pre, post)
    &&& same_data(pre, post)
}

/// Only the menu selection changed, to `idx`.
pub open spec fn menu_moved(pre: App, post: App, idx: int) -> bool {
    &&& post.menu_selected == idx
    &&& post.mode == pre.mode
    &&& post.selected_suggestion == pre.selected_suggestion
    &&& post.should_quit == pre.should_quit
    &&& post.status == pre.status
    &&& same_line(pre, post)
    &&& same_data(pre, post)
}

/// Only the suggestion selection changed, to `idx` where there are suggestions;
/// without suggestions nothing changed.
pub open spec fn suggestion_moved(pre: App, post: App, idx: int) -> bool {
    &&& pre.suggestions@.len() == 0 ==> post.selected_suggestion == pre.selected_suggestion
    &&& pre.suggestions@.len() > 0 ==> post.selected_suggestion == idx
    &&& post.mode == pre.mode
    &&& post.menu_selected == pre.menu_selected
    &&& post.should_quit == pre.should_quit
    &&& post.status == pre.status
    &&& same_line(pre, post)
    &&& same_data(pre, post)
}

/// The line became `line`, with the suggestions recomputed for it and the first selected.
pub open spec fn retyped(pre: App, post: App, line: Seq<char>) -> bool {
    &&& post.input@ == line
    &&& post.suggestions.deep_view() == suggestions_for(post)
    &&& post.selected_suggestion == 0
    &&& post.mode == pre.mode
    &&& post.status == pre.status
    &&& post.menu_selected == pre.menu_selected
    &&& post.should_quit == pre.should_quit
    &&& same_data(pre, post)
}

/// What accepting the selected suggestion does.
pub open spec fn accept_post(pre: App, post: App) -> bool {
    &&& pre.selected_suggestion < pre.suggestions@.len() ==> {
        &&& post.input@ == pre.suggestions.deep_view()[pre.selected_suggestion as int]
        &&& post.suggestions@.len() == 0
    }
    &&& pre.selected_suggestion >= pre.suggestions@.len() ==> same_line(pre, post)
    &&& post.mode == pre.mode
    &&& post.status == pre.status
    &&& same_selection(pre, post)
    &&& same_data(pre, post)
}

/// What one step back does.
pub open spec fn back_post(pre: App, post: App) -> bool {
    &&& post.mode == back_mode(pre.mode)
    &&& pre.mode == Mode::CatalogSection ==> post.current_section is None
    &&& pre.mode != Mode::CatalogSection ==> post.current_section == pre.current_section
    &&& post.input@.len() == 0
    &&& post.suggestions@.len() == 0
    &&& post.status is None
    &&& post.working_list == pre.working_list
    &&& post.catalog_sections == pre.catalog_sections
    &&& same_selection(pre, post)
}

/// What a key press does. On the menu, Enter acts on the selected entry, Esc asks
/// to quit, Up and Down move the menu selection, and typed characters and
/// Backspace are ignored. Elsewhere, Enter submits the line, Esc steps back, Up
/// and Down move the suggestion selection, and characters and Backspace edit the
/// line and recompute its suggestions. Tab accepts the selected suggestion; other
/// keys do nothing.
pub open spec fn handle_key_post(pre: App, key: Key, post: App, eff: Effect) -> bool {
    let on_menu = pre.mode == Mode::Menu;
    match key {
        Key::Enter => if on_menu {
            confirm_menu_post(pre, post, eff)
        } else {
            &&& submit_post(pre, post, eff)
            &&& post.input@.len() == 0
            &&& post.suggestions@.len() == 0
            &&& same_selection(pre, post)
        },
        Key::Char(c) => eff is Done && if on_menu {
            post == pre
        } else {
            retyped(pre, post, pre.input@.push(c))
        },
        Key::Backspace => eff is Done && if on_menu {
            post == pre
        } else {
            retyped(pre, post, if pre.input@.len() == 0 { pre.input@ } else { pre.input@.drop_last() })
        },
        Key::Up => eff is Done && if on_menu {
            menu_moved(pre, post, prev_index(pre.menu_selected as int, MENU_LEN as int))
        } else {
            suggestion_moved(pre, post, prev_index(pre.selected_suggestion as int, pre.suggestions@.len() as int))
        },
        Key::Down => eff is Done && if on_menu {
            menu_moved(pre, post, next_index(pre.menu_selected as int, MENU_LEN as int))
        } else {
            suggestion_moved(pre, post, next_index(pre.selected_suggestion as int, pre.suggestions@.len() as int))
        },
        Key::Tab => eff is Done && accept_post(pre, post),
        Key::Esc => eff is Done && if on_menu {
            &&& post.should_quit
            &&& post.mode == pre.mode
            &&& post.menu_selected == pre.menu_selected
            &&& post.selected_suggestion == pre.selected_suggestion
            &&& post.status == pre.status
            &&& same_line(pre, post)
            &&& same_data(pre, post)
        } else {
            back_post(pre, post)
        },
        Key::Other => eff is Done && post == pre,
    }
}

/// The selected menu entry is one of the menu's entries.
pub open spec fn menu_in_range(app: App) -> bool {
    app.menu_selected < MENU_LEN
}

/// Whenever there are suggestions, the selected one is among them.
pub open spec fn suggestion_in_range(app: App) -> bool {
    app.suggestions@.len() > 0 ==> app.selected_suggestion < app.suggestions@.len()
}

/// The selections are in range: the menu's always, the suggestions' whenever
/// there are suggestions.
pub open spec fn selections_in_range(app: App) -> bool {
    &&& menu_in_range(app)
    &&& suggestion_in_range(app)
}

/// On the screens of a catalog section, a section is open.
pub open spec fn section_open(app: App) -> bool {
    (app.mode == Mode::CatalogSection || app.mode == Mode::CatalogAddItem) ==> app.current_section is Some
}

/// The list commands, in order.
fn list_command_strs() -> (v: Vec<&'static str>)
    ensures
        v.deep_view() == list_commands(),
{
    let mut v: Vec<&'static str> = Vec::new();
    v.push("/add");
    v.push("/remove");
    v.push("/clear");
    assert(v.deep_view() =~= list_commands());
    v
}

/// The catalog commands, in order.
fn catalog_command_strs() -> (v: Vec<&'static str>)
    ensures
        v.deep_view() == catalog_commands(),
{
    let mut v: Vec<&'static str> = Vec::new();
    v.push("/format");
    v.push("/open");
    assert(v.deep_view() =~= catalog_commands());
    v
}

/// The section commands, in order.
fn section_command_strs() -> (v: Vec<&'static str>)
    ensures
        v.deep_view() == section_commands(),
{
    let mut v: Vec<&'static str> = Vec::new();
    v.push("/add");
    assert(v.deep_view() =~= section_commands());
    v
}

/// The names of the sections, borrowed.
fn section_name_strs(secs: &Vec<Section>) -> (r: Vec<&str>)
    ensures
        r.deep_view() == section_names(secs@),
{
    let n = secs.len();
    let mut r: Vec<&str> = Vec::new();
    let mut i: usize = 0;
    while i < n
        invariant
            n == secs.len(),
            i <= n,
            r.deep_view() == section_names(secs@).subrange(0, i as int),
        decreases n - i,
    {
        let ghost pre = r.deep_view();
        r.push(secs[i].name.as_str());
        assert(r.deep_view() =~= pre.push(secs@[i as int].name@));
        assert(r.deep_view() =~= section_names(secs@).subrange(0, i + 1));
        i = i + 1;
    }
    assert(r.deep_view() =~= section_names(secs@));
    r
}

impl App {
    /// The interface at start: the menu, nothing loaded, nothing typed.
    pub fn new() -> (app: App)
        ensures
            app.mode == Mode::Menu,
            app.menu_selected == 0,
            app.working_list.items@.len() == 0,
            app.catalog_sections@.len() == 0,
            app.current_section is None,
            app.input@.len() == 0,
            app.suggestions@.len() == 0,
            app.selected_suggestion == 0,
            app.status is None,
            !app.should_quit,
            selections_in_range(app),
            section_open(app),
    {
        App {
            mode: Mode::Menu,
            menu_selected: 0,
            working_list: GroceryList::new(),
            catalog_sections: Vec::new(),
            current_section: None,
            input: String::new(),
            suggestions: Vec::new(),
            selected_suggestion: 0,
            status: None,
            should_quit: false,
        }
    }

    /// The items of all catalog sections, section by section.
    pub fn catalog_items(&self) -> (r: Vec<&str>)
        ensures
            r.deep_view() == catalog_items_of(self.catalog_sections@),
    {
        let ghost secs = self.catalog_sections@;
        let n = self.catalog_sections.len();
        let mut r: Vec<&str> = Vec::new();
        let mut i: usize = 0;
        assert(r.deep_view() =~= catalog_items_of(secs.subrange(0, 0)));
        while i < n
            invariant
                n == self.catalog_sections.len(),
                secs == self.catalog_sections@,
                i <= n,
                r.deep_view() == catalog_items_of(secs.subrange(0, i as int)),
            decreases n - i,
        {
            let ghost start = r.deep_view();
            let items = &self.catalog_sections[i].items;
            let ghost all = items.deep_view();
            let m = items.len();
            let mut j: usize = 0;
            assert(r.deep_view() =~= start + all.subrange(0, 0));
            while j < m
                invariant
                    m == items.len(),
                    all == items.deep_view(),
                    j <= m,
                    r.deep_view() == start + all.subrange(0, j as int),
                decreases m - j,
            {
                let ghost pre = r.deep_view();
                r.push(items[j].as_str());
                assert(r.deep_view() =~= pre.push(all[j as int]));
                assert(r.deep_view() =~= start + all.subrange(0, j + 1));
                j = j + 1;
            }
            assert(all.subrange(0, m as int) =~= all);
            assert(secs.subrange(0, i + 1).drop_last() =~= secs.subrange(0, i as int));
            assert(r.deep_view() =~= catalog_items_of(secs.subrange(0, i + 1)));
            i = i + 1;
        }
        assert(secs.subrange(0, n as int) =~= secs);
        r
    }

    /// Recomputes the suggestions for the typed line and selects the first.
    pub fn input_changed(&mut self)
        ensures
            final(self).suggestions.deep_view() == suggestions_for(*old(self)),
            final(self).selected_suggestion == 0,
            final(self).mode == old(self).mode,
            final(self).input == old(self).input,
            final(self).status == old(self).status,
            final(self).menu_selected == old(self).menu_selected,
            final(self).should_quit == old(self).should_quit,
            same_data(*old(self), *final(self)),
            menu_in_range(*old(self)) ==> menu_in_range(*final(self)),
            suggestion_in_range(*old(self)) ==> suggestion_in_range(*final(self)),
            section_open(*old(self)) ==> section_open(*final(self)),
    {
        let input = self.input.as_str();
        let suggestions = if input.is_empty() {
            Vec::new()
        } else {
            match self.mode {
                Mode::Menu => Vec::new(),
                Mode::List => filter_prefix(&list_command_strs(), input),
                Mode::AddItem => {
                    let query = to_lowercase(input);
                    filter_lower_prefix(&self.catalog_items(), query.as_str())
                },
                Mode::RemoveItem => {
                    let query = to_lowercase(input);
                    filter_lower_prefix_dedup(&as_strs(&self.working_list.items), query.as_str())
                },
                Mode::Catalog => {
                    match str_strip_prefix(input, "/open ") {
                        Some(partial) => {
                            let query = to_lowercase(partial);
                            open_command_list(&section_name_strs(&self.catalog_sections), query.as_str())
                        },
                        None => filter_prefix(&catalog_command_strs(), input),
                    }
                },
                Mode::CatalogSection => filter_prefix(&section_command_strs(), input),
                Mode::CatalogAddItem => Vec::new(),
            }
        };
        proof {
            if input@.len() == 0 || self.mode == Mode::Menu || self.mode == Mode::CatalogAddItem {
                assert(suggestions.deep_view() =~= seq![]);
            }
        }
        self.suggestions = suggestions;
        self.selected_suggestion = 0;
    }

    /// Selects the suggestion before the selected one, wrapping to the last.
    pub fn select_prev_suggestion(&mut self)
        ensures
            old(self).suggestions@.len() == 0 ==> final(self).selected_suggestion == old(self).selected_suggestion,
            old(self).suggestions@.len() > 0 ==> final(self).selected_suggestion == prev_index(
                old(self).selected_suggestion as int,
                old(self).suggestions@.len() as int,
            ),
            final(self).mode == old(self).mode,
            final(self).menu_selected == old(self).menu_selected,
            final(self).should_quit == old(self).should_quit,
            final(self).status == old(self).status,
            same_line(*old(self), *final(self)),
            same_data(*old(self), *final(self)),
            menu_in_range(*old(self)) ==> menu_in_range(*final(self)),
            suggestion_in_range(*old(self)) ==> suggestion_in_range(*final(self)),
            section_open(*old(self)) ==> section_open(*final(self)),
    {
        if self.suggestions.len() == 0 {
            return;
        }
        self.selected_suggestion = if self.selected_suggestion == 0 {
            self.suggestions.len() - 1
        } else {
            self.selected_suggestion - 1
        };
    }

    /// Selects the suggestion after the selected one, wrapping to the first.
    pub fn select_next_suggestion(&mut self)
        requires
            old(self).suggestions@.len() > 0 ==> old(self).selected_suggestion < usize::MAX,
        ensures
            old(self).suggestions@.len() == 0 ==> final(self).selected_suggestion == old(self).selected_suggestion,
            old(self).suggestions@.len() > 0 ==> final(self).selected_suggestion == next_index(
                old(self).selected_suggestion as int,
                old(self).suggestions@.len() as int,
            ),
            final(self).mode == old(self).mode,
            final(self).menu_selected == old(self).menu_selected,
            final(self).should_quit == old(self).should_quit,
            final(self).status == old(self).status,
            same_line(*old(self), *final(self)),
            same_data(*old(self), *final(self)),
            menu_in_range(*old(self)) ==> menu_in_range(*final(self)),
            suggestion_in_range(*old(self)) ==> suggestion_in_range(*final(self)),
            section_open(*old(self)) ==> section_open(*final(self)),
    {
        if self.suggestions.len() == 0 {
            return;
        }
        self.selected_suggestion = (self.selected_suggestion + 1) % self.suggestions.len();
    }

    /// Selects the menu entry before the selected one, wrapping to the last.
    pub fn select_menu_prev(&mut self)
        ensures
            final(self).menu_selected == prev_index(old(self).menu_selected as int, MENU_LEN as int),
            final(self).mode == old(self).mode,
            final(self).selected_suggestion == old(self).selected_suggestion,
            final(self).should_quit == old(self).should_quit,
            final(self).status == old(self).status,
            same_line(*old(self), *final(self)),
            same_data(*old(self), *final(self)),
            menu_in_range(*old(self)) ==> menu_in_range(*final(self)),
            suggestion_in_range(*old(self)) ==> suggestion_in_range(*final(self)),
            section_open(*old(self)) ==> section_open(*final(self)),
    {
        self.menu_selected = if self.menu_selected == 0 {
            MENU_LEN - 1
        } else {
            self.menu_selected - 1
        };
    }

    /// Selects the menu entry after the selected one, wrapping to the first.
    pub fn select_menu_next(&mut self)
        requires
            old(self).menu_selected < usize::MAX,
        ensures
            final(self).menu_selected == next_index(old(self).menu_selected as int, MENU_LEN as int),
            final(self).mode == old(self).mode,
            final(self).selected_suggestion == old(self).selected_suggestion,
            final(self).should_quit == old(self).should_quit,
            final(self).status == old(self).status,
            same_line(*old(self), *final(self)),
            same_data(*old(self), *final(self)),
            menu_in_range(*old(self)) ==> menu_in_range(*final(self)),
            suggestion_in_range(*old(self)) ==> suggestion_in_range(*final(self)),
            section_open(*old(self)) ==> section_open(*final(self)),
    {
        self.menu_selected = (self.menu_selected + 1) % MENU_LEN;
    }

    /// Acts on the selected menu entry: List and Catalog ask for their data to be
    /// loaded, Exit asks to quit.
    pub fn confirm_menu(&mut self) -> (eff: Effect)
        requires
            old(self).menu_selected < MENU_LEN,
        ensures
            confirm_menu_post(*old(self), *final(self), eff),
            menu_in_range(*old(self)) ==> menu_in_range(*final(self)),
            suggestion_in_range(*old(self)) ==> suggestion_in_range(*final(self)),
            section_open(*old(self)) ==> section_open(*final(self)),
    {
        if self.menu_selected == 0 {
            Effect::OpenList
        } else if self.menu_selected == 1 {
            Effect::OpenCatalog
        } else {
            self.should_quit = true;
            Effect::Done
        }
    }

    /// Puts the selected suggestion on the line and drops the suggestions; with no
    /// suggestion selected, nothing changes.
    pub fn accept_suggestion(&mut self)
        ensures
            accept_post(*old(self), *final(self)),
            menu_in_range(*old(self)) ==> menu_in_range(*final(self)),
            suggestion_in_range(*old(self)) ==> suggestion_in_range(*final(self)),
            section_open(*old(self)) ==> section_open(*final(self)),
    {
        if self.selected_suggestion < self.suggestions.len() {
            let suggestion = self.suggestions[self.selected_suggestion].clone();
            self.input = suggestion;
            self.suggestions.clear();
        }
    }

    /// Step back one level: AddItem/RemoveItem -> List, CatalogAddItem -> CatalogSection,
    /// CatalogSection -> Catalog, List/Catalog -> Menu; on the menu nothing changes
    /// screen (quitting from there is the caller's part). The line, the suggestions
    /// and the status are cleared, and leaving a section closes it.
    pub fn back(&mut self)
        ensures
            back_post(*old(self), *final(self)),
            menu_in_range(*old(self)) ==> menu_in_range(*final(self)),
            suggestion_in_range(*old(self)) ==> suggestion_in_range(*final(self)),
            section_open(*old(self)) ==> section_open(*final(self)),
    {
        let next = match self.mode {
            Mode::AddItem | Mode::RemoveItem => Mode::List,
            Mode::List | Mode::Catalog => Mode::Menu,
            Mode::CatalogAddItem => Mode::CatalogSection,
            Mode::CatalogSection => Mode::Catalog,
            Mode::Menu => Mode::Menu,
        };
        if matches!(self.mode, Mode::CatalogSection) {
            self.current_section = None;
        }
        self.mode = next;
        self.input = String::new();
        self.suggestions.clear();
        self.status = None;
    }

    /// Working list items grouped by catalog section, in catalog order.
    /// Sections with no items on the list are omitted.
    /// Within a section the items keep their list order, stably sorted by their
    /// lower-case form.
    pub fn grouped_list(&self) -> (r: Vec<(&str, Vec<&str>)>)
        ensures
            r@.len() == listed_sections(self.catalog_sections@, self.working_list.items.deep_view()).len(),
            forall|g: int|
                0 <= g < r@.len() ==> {
                    let k = listed_sections(self.catalog_sections@, self.working_list.items.deep_view())[g];
                    &&& 0 <= k < self.catalog_sections@.len()
                    &&& (#[trigger] r@[g]).0@ == self.catalog_sections@[k].name@
                    &&& is_sorted_by_lowercase(
                        section_members(self.catalog_sections@[k], self.working_list.items.deep_view()),
                        r@[g].1.deep_view(),
                    )
                },
    {
        let ghost secs = self.catalog_sections@;
        let ghost items = self.working_list.items.deep_view();
        let n = self.catalog_sections.len();
        let m = self.working_list.items.len();
        let mut r: Vec<(&str, Vec<&str>)> = Vec::new();
        let mut i: usize = 0;
        while i < n
            invariant
                n == self.catalog_sections.len(),
                m == self.working_list.items.len(),
                secs == self.catalog_sections@,
                items == self.working_list.items.deep_view(),
                i <= n,
                r@.len() == listed_sections(secs.subrange(0, i as int), items).len(),
                forall|k: int| 0 <= k < listed_sections(secs.subrange(0, i as int), items).len()
                    ==> 0 <= #[trigger] listed_sections(secs.subrange(0, i as int), items)[k] < i,
                forall|g: int|
                    0 <= g < r@.len() ==> {
                        let k = listed_sections(secs.subrange(0, i as int), items)[g];
                        &&& (#[trigger] r@[g]).0@ == secs[k].name@
                        &&& is_sorted_by_lowercase(section_members(secs[k], items), r@[g].1.deep_view())
                    },
            decreases n - i,
        {
            let section = &self.catalog_sections[i];
            let refs = as_strs(&section.items);
            let mut members: Vec<&str> = Vec::new();
            let mut j: usize = 0;
            while j < m
                invariant
                    m == self.working_list.items.len(),
                    items == self.working_list.items.deep_view(),
                    refs.deep_view() == section.items.deep_view(),
                    j <= m,
                    members.deep_view() == section_members(*section, items.subrange(0, j as int)),
                decreases m - j,
            {
                let ghost pre = members.deep_view();
                let item = self.working_list.items[j].as_str();
                assert(items.subrange(0, j + 1).drop_last() =~= items.subrange(0, j as int));
                assert(item@ == items[j as int]);
                if find_ignore_case(&refs, item).is_some() {
                    members.push(item);
                    assert(members.deep_view() =~= pre.push(items[j as int]));
                }
                j = j + 1;
            }
            assert(items.subrange(0, m as int) =~= items);
            let ghost listed = listed_sections(secs.subrange(0, i as int), items);
            assert(secs.subrange(0, i + 1).drop_last() =~= secs.subrange(0, i as int));
            assert(secs.subrange(0, i + 1).last() == secs[i as int]);
            if members.len() > 0 {
                let sorted = sort_strs_by_lowercase(&members);
                let ghost r_pre = r@;
                r.push((section.name.as_str(), sorted));
                assert(listed_sections(secs.subrange(0, i + 1), items) == listed.push(i as int));
                assert forall|g: int| 0 <= g < r@.len() implies {
                    let k = listed_sections(secs.subrange(0, i + 1), items)[g];
                    &&& (#[trigger] r@[g]).0@ == secs[k].name@
                    &&& is_sorted_by_lowercase(section_members(secs[k], items), r@[g].1.deep_view())
                } by {
                    if g < r_pre.len() {
                        assert(r@[g] == r_pre[g]);
                        assert(listed_sections(secs.subrange(0, i + 1), items)[g] == listed[g]);
                    }
                }
            } else {
                assert(members.deep_view().len() == 0);
                assert(listed_sections(secs.subrange(0, i + 1), items) == listed);
            }
            i = i + 1;
        }
        assert(secs.subrange(0, n as int) =~= secs);
        r
    }

    /// Empties the working list and asks for it to be saved.
    pub fn clear_list(&mut self) -> (eff: Effect)
        ensures
            clear_list_post(*old(self), *final(self), eff),
            same_selection(*old(self), *final(self)),
            same_line(*old(self), *final(self)),
            menu_in_range(*old(self)) ==> menu_in_range(*final(self)),
            suggestion_in_range(*old(self)) ==> suggestion_in_range(*final(self)),
            section_open(*old(self)) ==> section_open(*final(self)),
    {
        self.working_list.items.clear();
        Effect::SaveList { message: String::from_str("Cleared list") }
    }

    /// Handles a command typed on the list screen.
    pub fn run_list_command(&mut self, command: &str) -> (eff: Effect)
        ensures
            run_list_command_post(*old(self), command@, *final(self), eff),
            same_selection(*old(self), *final(self)),
            same_line(*old(self), *final(self)),
            menu_in_range(*old(self)) ==> menu_in_range(*final(self)),
            suggestion_in_range(*old(self)) ==> suggestion_in_range(*final(self)),
            section_open(*old(self)) ==> section_open(*final(self)),
    {
        if str_eq(command, "/add") {
            self.mode = Mode::AddItem;
            Effect::Done
        } else if str_eq(command, "/remove") {
            self.mode = Mode::RemoveItem;
            Effect::Done
        } else if str_eq(command, "/clear") {
            self.clear_list()
        } else {
            self.status = Some(concat2("unknown command: ", command));
            Effect::Done
        }
    }

    /// Opens the catalog section whose name equals `name`, ASCII letters compared
    /// without case.
    pub fn open_catalog_section(&mut self, name: &str) -> (eff: Effect)
        ensures
            open_catalog_section_post(*old(self), name@, *final(self), eff),
            same_selection(*old(self), *final(self)),
            same_line(*old(self), *final(self)),
            menu_in_range(*old(self)) ==> menu_in_range(*final(self)),
            suggestion_in_range(*old(self)) ==> suggestion_in_range(*final(self)),
            section_open(*old(self)) ==> section_open(*final(self)),
    {
        let found = {
            let names = section_name_strs(&self.catalog_sections);
            find_ignore_case(&names, name)
        };
        match found {
            Some(k) => {
                self.current_section = Some(self.catalog_sections[k].name.clone());
                self.status = None;
                self.mode = Mode::CatalogSection;
            },
            None => {
                self.status = Some(concat3("No such section '", name, "'"));
            },
        }
        Effect::Done
    }

    /// Handles a command typed on the catalog screen.
    pub fn run_catalog_command(&mut self, command: &str) -> (eff: Effect)
        ensures
            run_catalog_command_post(*old(self), command@, *final(self), eff),
            same_selection(*old(self), *final(self)),
            same_line(*old(self), *final(self)),
            menu_in_range(*old(self)) ==> menu_in_range(*final(self)),
            suggestion_in_range(*old(self)) ==> suggestion_in_range(*final(self)),
            section_open(*old(self)) ==> section_open(*final(self)),
    {
        if str_eq(command, "/format") {
            Effect::FormatCatalog
        } else {
            match str_strip_prefix(command, "/open ") {
                Some(name) => self.open_catalog_section(trim_str(name)),
                None => {
                    self.status = Some(concat2("unknown command: ", command));
                    Effect::Done
                },
            }
        }
    }

    /// Handles a command typed on a catalog section's screen.
    pub fn run_catalog_section_command(&mut self, command: &str) -> (eff: Effect)
        requires
            old(self).mode == Mode::CatalogSection,
        ensures
            run_catalog_section_command_post(*old(self), command@, *final(self), eff),
            same_selection(*old(self), *final(self)),
            same_line(*old(self), *final(self)),
            menu_in_range(*old(self)) ==> menu_in_range(*final(self)),
            suggestion_in_range(*old(self)) ==> suggestion_in_range(*final(self)),
            section_open(*old(self)) ==> section_open(*final(self)),
    {
        if str_eq(command, "/add") {
            self.mode = Mode::CatalogAddItem;
        } else {
            self.status = Some(concat2("unknown command: ", command));
        }
        Effect::Done
    }

    /// Appends the catalog's spelling of `name` to the working list, and asks for
    /// the list to be saved.
    pub fn add_item(&mut self, name: &str) -> (eff: Effect)
        ensures
            add_item_post(*old(self), name@, *final(self), eff),
            same_selection(*old(self), *final(self)),
            same_line(*old(self), *final(self)),
            menu_in_range(*old(self)) ==> menu_in_range(*final(self)),
            suggestion_in_range(*old(self)) ==> suggestion_in_range(*final(self)),
            section_open(*old(self)) ==> section_open(*final(self)),
    {
        let canonical = {
            let cands = self.catalog_items();
            match find_ignore_case(&cands, name) {
                Some(i) => Some(String::from_str(cands[i])),
                None => None,
            }
        };
        match canonical {
            Some(canonical) => {
                let message = concat2("Added ", canonical.as_str());
                self.working_list.add(canonical);
                Effect::SaveList { message }
            },
            None => {
                self.status = Some(concat3("Unknown item '", name, "' — not in the catalog"));
                Effect::Done
            },
        }
    }

    /// Removes the first item of the working list that equals `name`, ASCII
    /// letters compared without case, and asks for the list to be saved.
    pub fn remove_item(&mut self, name: &str) -> (eff: Effect)
        ensures
            remove_item_post(*old(self), name@, *final(self), eff),
            same_selection(*old(self), *final(self)),
            same_line(*old(self), *final(self)),
            menu_in_range(*old(self)) ==> menu_in_range(*final(self)),
            suggestion_in_range(*old(self)) ==> suggestion_in_range(*final(self)),
            section_open(*old(self)) ==> section_open(*final(self)),
    {
        let position = {
            let refs = as_strs(&self.working_list.items);
            find_ignore_case(&refs, name)
        };
        match position {
            Some(index) => {
                let ghost before = self.working_list.items.deep_view();
                let removed = self.working_list.items.remove(index);
                assert(self.working_list.items.deep_view() =~= before.remove(index as int));
                Effect::SaveList { message: concat2("Removed ", removed.as_str()) }
            },
            None => {
                self.status = Some(concat3("No such item '", name, "' on the list"));
                Effect::Done
            },
        }
    }

    /// Acts on one key press; see `handle_key_post` for what each key does.
    pub fn handle_key(&mut self, key: Key) -> (eff: Effect)
        requires
            selections_in_range(*old(self)),
        ensures
            handle_key_post(*old(self), key, *final(self), eff),
            selections_in_range(*final(self)),
            section_open(*old(self)) ==> section_open(*final(self)),
    {
        let on_menu = matches!(self.mode, Mode::Menu);
        match key {
            Key::Enter => {
                if on_menu {
                    self.confirm_menu()
                } else {
                    self.submit_input()
                }
            },
            Key::Char(c) => {
                if !on_menu {
                    push_char(&mut self.input, c);
                    self.input_changed();
                }
                Effect::Done
            },
            Key::Backspace => {
                if !on_menu {
                    let _ = pop_char(&mut self.input);
                    self.input_changed();
                }
                Effect::Done
            },
            Key::Up => {
                if on_menu {
                    self.select_menu_prev();
                } else {
                    self.select_prev_suggestion();
                }
                Effect::Done
            },
            Key::Down => {
                if on_menu {
                    self.select_menu_next();
                } else {
                    let n = self.suggestions.len();
                    assert(n > 0 ==> self.selected_suggestion < n);
                    self.select_next_suggestion();
                }
                Effect::Done
            },
            Key::Tab => {
                self.accept_suggestion();
                Effect::Done
            },
            Key::Esc => {
                if on_menu {
                    self.should_quit = true;
                } else {
                    self.back();
                }
                Effect::Done
            },
            Key::Other => Effect::Done,
        }
    }

    /// Takes the typed line: clears it and its suggestions, then hands the trimmed
    /// line, where it is not empty, to the handler of the screen. On the screen
    /// that adds an item to a section, with no section open, it says so and asks
    /// for no file work.
    pub fn submit_input(&mut self) -> (eff: Effect)
        ensures
            submit_post(*old(self), *final(self), eff),
            final(self).input@.len() == 0,
            final(self).suggestions@.len() == 0,
            same_selection(*old(self), *final(self)),
            menu_in_range(*old(self)) ==> menu_in_range(*final(self)),
            suggestion_in_range(*old(self)) ==> suggestion_in_range(*final(self)),
            section_open(*old(self)) ==> section_open(*final(self)),
    {
        let text = String::from_str(trim_str(self.input.as_str()));
        self.input = String::new();
        self.suggestions.clear();
        if text.as_str().is_empty() {
            return Effect::Done;
        }
        match self.mode {
            Mode::Menu => Effect::Done,
            Mode::List => self.run_list_command(text.as_str()),
            Mode::AddItem => self.add_item(text.as_str()),
            Mode::RemoveItem => self.remove_item(text.as_str()),
            Mode::Catalog => self.run_catalog_command(text.as_str()),
            Mode::CatalogSection => self.run_catalog_section_command(text.as_str()),
            Mode::CatalogAddItem => {
                if self.current_section.is_none() {
                    self.status = Some(String::from_str("No section open"));
                    Effect::Done
                } else {
                    Effect::AddCatalogItem { name: text }
                }
            },
        }
    }

    /// Shows the list screen with the loaded catalog and working list; a part that
    /// failed to load keeps its old value and its error becomes the status.
    pub fn open_list(&mut self, catalog: Result<Catalog, LoadError>, list: Result<GroceryList, String>)
        ensures
            final(self).mode == Mode::List,
            final(self).catalog_sections == match catalog {
                Ok(c) => c.sections,
                Err(_) => old(self).catalog_sections,
            },
            final(self).working_list == match list {
                Ok(l) => l,
                Err(_) => old(self).working_list,
            },
            final(self).status.deep_view() == match list {
                Err(e) => Some(e@),
                Ok(_) => match catalog {
                    Ok(_) => None,
                    Err(e) => Some("Error loading catalog: "@ + load_error_text(e)),
                },
            },
            final(self).current_section == old(self).current_section,
            same_selection(*old(self), *final(self)),
            same_line(*old(self), *final(self)),
            menu_in_range(*old(self)) ==> menu_in_range(*final(self)),
            suggestion_in_range(*old(self)) ==> suggestion_in_range(*final(self)),
            section_open(*old(self)) ==> section_open(*final(self)),
    {
        match catalog {
            Ok(catalog) => {
                self.catalog_sections = catalog.sections;
                self.status = None;
            },
            Err(e) => {
                let text = e.to_text();
                self.status = Some(concat2("Error loading catalog: ", text.as_str()));
            },
        }
        match list {
            Ok(list) => self.working_list = list,
            Err(e) => self.status = Some(e),
        }
        self.mode = Mode::List;
    }

    /// Shows the catalog screen with the loaded catalog; on a load error the old
    /// sections stay and the error becomes the status.
    pub fn open_catalog(&mut self, catalog: Result<Catalog, LoadError>)
        ensures
            final(self).mode == Mode::Catalog,
            final(self).catalog_sections == match catalog {
                Ok(c) => c.sections,
                Err(_) => old(self).catalog_sections,
            },
            final(self).status.deep_view() == match catalog {
                Ok(_) => None,
                Err(e) => Some(load_error_text(e)),
            },
            final(self).working_list == old(self).working_list,
            final(self).current_section == old(self).current_section,
            same_selection(*old(self), *final(self)),
            same_line(*old(self), *final(self)),
            menu_in_range(*old(self)) ==> menu_in_range(*final(self)),
            suggestion_in_range(*old(self)) ==> suggestion_in_range(*final(self)),
            section_open(*old(self)) ==> section_open(*final(self)),
    {
        match catalog {
            Ok(catalog) => {
                self.catalog_sections = catalog.sections;
                self.status = None;
            },
            Err(e) => self.status = Some(e.to_text()),
        }
        self.mode = Mode::Catalog;
    }

    /// Sorts the items of every section of the loaded catalog and asks for it to
    /// be saved; on a load error the error becomes the status.
    pub fn format_catalog(&mut self, loaded: Result<Catalog, LoadError>) -> (eff: Effect)
        ensures
            match loaded {
                Err(e) => final(self).status.deep_view() == Some(load_error_text(e)) && eff is Done,
                Ok(c) => {
                    &&& final(self).status == old(self).status
                    &&& eff matches Effect::SaveCatalog { catalog, message }
                    &&& message@ == "Catalog formatted"@
                    &&& items_sorted(c.sections@, catalog.sections@)
                },
            },
            final(self).mode == old(self).mode,
            same_data(*old(self), *final(self)),
            same_selection(*old(self), *final(self)),
            same_line(*old(self), *final(self)),
            menu_in_range(*old(self)) ==> menu_in_range(*final(self)),
            suggestion_in_range(*old(self)) ==> suggestion_in_range(*final(self)),
            section_open(*old(self)) ==> section_open(*final(self)),
    {
        match loaded {
            Ok(mut catalog) => {
                catalog.sort_items();
                Effect::SaveCatalog { catalog, message: String::from_str("Catalog formatted") }
            },
            Err(e) => {
                self.status = Some(e.to_text());
                Effect::Done
            },
        }
    }

    /// Adds `name` to the open section of the loaded catalog, keeping the
    /// section's items sorted by their lower-case form, and asks for the catalog
    /// to be saved.
    pub fn add_catalog_item(&mut self, name: &str, loaded: Result<Catalog, LoadError>) -> (eff: Effect)
        ensures
            add_catalog_item_post(*old(self), name@, loaded, *final(self), eff),
            same_selection(*old(self), *final(self)),
            same_line(*old(self), *final(self)),
            menu_in_range(*old(self)) ==> menu_in_range(*final(self)),
            suggestion_in_range(*old(self)) ==> suggestion_in_range(*final(self)),
            section_open(*old(self)) ==> section_open(*final(self)),
    {
        let section_name = match &self.current_section {
            Some(s) => s.clone(),
            None => {
                self.status = Some(String::from_str("No section open"));
                return Effect::Done;
            },
        };
        let mut catalog = match loaded {
            Ok(catalog) => catalog,
            Err(e) => {
                self.status = Some(e.to_text());
                return Effect::Done;
            },
        };
        let found = {
            let names = section_name_strs(&catalog.sections);
            find_equal(&names, section_name.as_str())
        };
        match found {
            Some(k) => {
                let ghost before = catalog.sections@;
                let mut items = as_strs(&catalog.sections[k].items);
                items.push(name);
                let ghost grown = items.deep_view();
                let sorted = sort_strs_by_lowercase(&items);
                catalog.sections[k].items = owned(&sorted);
                assert forall|j: int| 0 <= j < before.len() && j != k implies #[trigger] catalog.sections@[j] == before[j] by {}
                let head = concat3("Added ", name, " to ");
                let message = concat2(head.as_str(), section_name.as_str());
                assert(grown =~= before[k as int].items.deep_view().push(name@));
                Effect::SaveCatalog { catalog, message }
            },
            None => {
                self.status = Some(concat3("No such section '", section_name.as_str(), "'"));
                Effect::Done
            },
        }
    }

    /// Finishes a save of `catalog`: on success its sections are shown and
    /// `message` becomes the status, otherwise the save error does.
    pub fn finish_catalog_save(&mut self, catalog: Catalog, message: String, result: Result<(), String>)
        ensures
            final(self).catalog_sections == match result {
                Ok(_) => catalog.sections,
                Err(_) => old(self).catalog_sections,
            },
            final(self).status.deep_view() == match result {
                Ok(_) => Some(message@),
                Err(e) => Some(e@),
            },
            final(self).mode == old(self).mode,
            final(self).working_list == old(self).working_list,
            final(self).current_section == old(self).current_section,
            same_selection(*old(self), *final(self)),
            same_line(*old(self), *final(self)),
            menu_in_range(*old(self)) ==> menu_in_range(*final(self)),
            suggestion_in_range(*old(self)) ==> suggestion_in_range(*final(self)),
            section_open(*old(self)) ==> section_open(*final(self)),
    {
        match result {
            Ok(()) => {
                self.catalog_sections = catalog.sections;
                self.status = Some(message);
            },
            Err(e) => self.status = Some(e),
        }
    }

    /// Finishes a save of the working list: on success `message` becomes the
    /// status, otherwise the save error does.
    pub fn finish_list_save(&mut self, message: String, result: Result<(), String>)
        ensures
            final(self).status.deep_view() == match result {
                Ok(_) => Some(message@),
                Err(e) => Some(e@),
            },
            final(self).mode == old(self).mode,
            same_data(*old(self), *final(self)),
            same_selection(*old(self), *final(self)),
            same_line(*old(self), *final(self)),
            menu_in_range(*old(self)) ==> menu_in_range(*final(self)),
            suggestion_in_range(*old(self)) ==> suggestion_in_range(*final(self)),
            section_open(*old(self)) ==> section_open(*final(self)),
    {
        match result {
            Ok(()) => self.status = Some(message),
            Err(e) => self.status = Some(e),
        }
    }
}

/// Whether a status message reports a failure, and so is shown as an error: it
/// names an unknown command or item, could not read or write a file, or finds
/// no such item on the list.
pub fn status_is_error(status: &str) -> (r: bool)
    ensures
        r == (starts_with(lowercase(status@), "unknown"@) || starts_with(status@, "couldn't"@)
            || starts_with(status@, "No such item"@)),
{
    let low = to_lowercase(status);
    str_starts_with(low.as_str(), "unknown") || str_starts_with(status, "couldn't")
        || str_starts_with(status, "No such item")
}

/// Owned copies of borrowed texts.
fn owned(v: &Vec<&str>) -> (r: Vec<String>)
    ensures
        r.deep_view() == v.deep_view(),
{
    let n = v.len();
    let mut r: Vec<String> = Vec::new();
    let mut i: usize = 0;
    while i < n
        invariant
            n == v.len(),
            i <= n,
            r.deep_view() == v.deep_view().subrange(0, i as int),
        decreases n - i,
    {
        let ghost pre = r.deep_view();
        r.push(String::from_str(v[i]));
        assert(r.deep_view() =~= pre.push(v.deep_view()[i as int]));
        assert(r.deep_view() =~= v.deep_view().subrange(0, i + 1));
        i = i + 1;
    }
    assert(r.deep_view() =~= v.deep_view());
    r
}

/// Stepping to the next entry and back returns to the same entry, and so does
/// stepping back and then on; both stay in range.
pub proof fn lemma_prev_undoes_next(i: int, n: int)
    requires
        0 <= i < n,
    ensures
        0 <= next_index(i, n) < n,
        0 <= prev_index(i, n) < n,
        prev_index(next_index(i, n), n) == i,
        next_index(prev_index(i, n), n) == i,
{
    if i + 1 < n {
        assert((i + 1) % n == i + 1) by (nonlinear_arith)
            requires
                0 <= i + 1 < n,
        ;
    } else {
        assert((i + 1) % n == 0) by (nonlinear_arith)
            requires
                i + 1 == n,
                n > 0,
        ;
    }
    if i == 0 {
        assert((n - 1 + 1) % n == 0) by (nonlinear_arith)
            requires
                n > 0,
        ;
    } else {
        assert((i - 1 + 1) % n == i) by (nonlinear_arith)
            requires
                0 <= i < n,
        ;
    }
}

/// Each step back from a screen other than the menu comes one level nearer the
/// menu; on the menu a step back stays there. So as many steps back as a screen's
/// depth lead to the menu.
pub proof fn lemma_back_nears_menu(m: Mode)
    ensures
        m != Mode::Menu ==> mode_depth(back_mode(m)) + 1 == mode_depth(m),
        m == Mode::Menu ==> back_mode(m) == Mode::Menu,
        mode_depth(m) == 0 <==> m == Mode::Menu,
{
}

/// Adding an item to the working list and then removing it by the same name
/// leaves the list as it was, when no item on the list had that name before.
pub proof fn lemma_remove_undoes_add(
    a0: App,
    a1: App,
    a2: App,
    name: Seq<char>,
    e1: Effect,
    e2: Effect,
)
    requires
        add_item_post(a0, name, a1, e1),
        remove_item_post(a1, name, a2, e2),
        first_ignore_case(a0.working_list.items.deep_view(), name) is None,
    ensures
        a2.working_list.items.deep_view() == a0.working_list.items.deep_view(),
{
    let items = a0.working_list.items.deep_view();
    let cands = catalog_items_of(a0.catalog_sections@);
    crate::search::lemma_first_ignore_case(cands, name);
    crate::search::lemma_first_ignore_case(items, name);
    match first_ignore_case(cands, name) {
        None => {},
        Some(i) => {
            let grown = items.push(cands[i]);
            assert(a1.working_list.items.deep_view() == grown);
            crate::search::lemma_first_ignore_case(grown, name);
            assert forall|j: int| 0 <= j < items.len() implies !eq_ignore_ascii_case(#[trigger] grown[j], name) by {
                assert(grown[j] == items[j]);
            }
            assert(eq_ignore_ascii_case(grown[items.len() as int], name));
            assert(first_ignore_case(grown, name) == Some(items.len() as int));
            assert(grown.remove(items.len() as int) =~= items);
        },
    }
}

/// On the list screen every suggestion is a list command that completes the typed
/// line, and every list command that completes a non-empty line is suggested.
pub proof fn lemma_list_suggestions_complete_input(app: App)
    requires
        app.mode == Mode::List,
        app.input@.len() > 0,
    ensures
        forall|x: Seq<char>|
            #[trigger] suggestions_for(app).contains(x) <==> (list_commands().contains(x) && starts_with(
                x,
                app.input@,
            )),
{
    crate::suggest::lemma_prefix_filter_members(list_commands(), app.input@);
}

/// On the catalog screen, with the line `"/open " + p`, the suggestions are exactly
/// `"/open "` followed by each section name whose lower-case form starts with the
/// lower-case form of `p`; so any two spellings of `p` that lower-case alike get
/// the same suggestions.
pub proof fn lemma_open_suggestions(app: App)
    requires
        app.mode == Mode::Catalog,
        starts_with(app.input@, "/open "@),
    ensures
        forall|x: Seq<char>|
            #[trigger] suggestions_for(app).contains(x) <==> exists|k: int|
                0 <= k < app.catalog_sections@.len() && x == "/open "@ + (#[trigger] app.catalog_sections@[k]).name@
                    && starts_with(
                    lowercase(app.catalog_sections@[k].name@),
                    lowercase(app.input@.subrange("/open "@.len() as int, app.input@.len() as int)),
                ),
{
    reveal_strlit("/open ");
    let secs = app.catalog_sections@;
    let names = section_names(secs);
    let q = lowercase(app.input@.subrange("/open "@.len() as int, app.input@.len() as int));
    assert(app.input@.len() > 0);
    crate::suggest::lemma_open_commands_members(names, q);
    assert forall|x: Seq<char>|
        #[trigger] suggestions_for(app).contains(x) <==> exists|k: int|
            0 <= k < secs.len() && x == "/open "@ + (#[trigger] secs[k]).name@ && starts_with(lowercase(secs[k].name@), q) by {
        if suggestions_for(app).contains(x) {
            let k = choose|k: int| 0 <= k < names.len() && x == "/open "@ + #[trigger] names[k] && starts_with(lowercase(names[k]), q);
            assert(names[k] == secs[k].name@);
        }
        if exists|k: int| 0 <= k < secs.len() && x == "/open "@ + (#[trigger] secs[k]).name@ && starts_with(lowercase(secs[k].name@), q) {
            let k = choose|k: int| 0 <= k < secs.len() && x == "/open "@ + (#[trigger] secs[k]).name@ && starts_with(lowercase(secs[k].name@), q);
            assert(names[k] == secs[k].name@);
        }
    }
}

/// A working-list item is in a section's group exactly when one of the section's
/// catalog items equals it, ASCII letters compared without case; the group keeps
/// the list's order.
pub proof fn lemma_section_members_match_whole_items(sec: Section, items: Seq<Seq<char>>)
    ensures
        section_members(sec, items) == items.filter(
            |x: Seq<char>| exists|k: int| 0 <= k < sec.items@.len() && eq_ignore_ascii_case(#[trigger] sec.items.deep_view()[k], x),
        ),
    decreases items.len(),
{
    let p = |x: Seq<char>| exists|k: int| 0 <= k < sec.items@.len() && eq_ignore_ascii_case(#[trigger] sec.items.deep_view()[k], x);
    if items.len() > 0 {
        lemma_section_members_match_whole_items(sec, items.drop_last());
        let x = items.last();
        crate::search::lemma_first_ignore_case(sec.items.deep_view(), x);
        if in_section(sec, x) {
            let i = first_ignore_case(sec.items.deep_view(), x)->0;
            assert(eq_ignore_ascii_case(sec.items.deep_view()[i], x));
            assert(p(x));
        } else {
            assert(!p(x));
        }
        assert(items =~= items.drop_last().push(x));
        items.drop_last().lemma_filter_push(x, p);
        assert(section_members(sec, items) == items.filter(p));
    }
}

/// Adding `name` to the open section stores it exactly as given: the section's
/// new items are its old items and `name`, one more text than before, and no
/// other text.
pub proof fn lemma_add_catalog_item_stores_name(
    pre: App,
    name: Seq<char>,
    c: Catalog,
    sec: String,
    k: int,
    post: App,
    eff: Effect,
)
    requires
        add_catalog_item_post(pre, name, Ok(c), post, eff),
        pre.current_section == Some(sec),
        first_equal(section_names(c.sections@), sec@) == Some(k),
    ensures
        eff matches Effect::SaveCatalog { catalog, message } && {
            let before = c.sections@[k].items.deep_view();
            let after = catalog.sections@[k].items.deep_view();
            &&& after.len() == before.len() + 1
            &&& after.contains(name)
            &&& forall|x: Seq<char>| #[trigger] after.contains(x) <==> (before.contains(x) || x == name)
        },
{
    match eff {
        Effect::SaveCatalog { catalog, message } => {
            let before = c.sections@[k].items.deep_view();
            let after = catalog.sections@[k].items.deep_view();
            crate::sorting::lemma_sorted_same_texts(before.push(name), after);
            assert(before.push(name)[before.len() as int] == name);
            assert forall|x: Seq<char>| #[trigger] after.contains(x) <==> (before.contains(x) || x == name) by {
                if before.push(name).contains(x) && x != name {
                    let i = choose|i: int| 0 <= i < before.push(name).len() && before.push(name)[i] == x;
                    assert(before[i] == x);
                }
                if before.contains(x) {
                    let i = choose|i: int| 0 <= i < before.len() && before[i] == x;
                    assert(before.push(name)[i] == x);
                }
            }
        },
        _ => {},
    }
}

} // verus!

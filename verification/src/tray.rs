//! The system tray: what its menu holds, and what a click asks for.

use vstd::prelude::*;
use crate::text::str_equal;

verus! {

/// What happened at the tray icon.
#[derive(Clone, Debug, PartialEq, Eq)]
pub enum TrayEvent {
    /// The icon was clicked with the left button.
    LeftClick,
    /// The menu item with this id was chosen.
    MenuItemClick { id: String },
    /// Anything else.
    Other,
}

/// The mathematical value of a [`TrayEvent`].
pub enum TrayEventModel {
    LeftClick,
    MenuItemClick { id: Seq<char> },
    Other,
}

impl View for TrayEvent {
    type V = TrayEventModel;

    open spec fn view(&self) -> TrayEventModel {
        match self {
            TrayEvent::LeftClick => TrayEventModel::LeftClick,
            TrayEvent::MenuItemClick { id } => TrayEventModel::MenuItemClick { id: id@ },
            TrayEvent::Other => TrayEventModel::Other,
        }
    }
}

/// What the shell is to do with its main window.
#[derive(Clone, Copy, Debug, PartialEq, Eq, Structural)]
pub enum TrayAction {
    /// Show the window and give it the focus.
    ShowAndFocus,
    /// Hide the window.
    Hide,
    /// Leave the application.
    Quit,
    /// Nothing.
    Nothing,
}

/// One line of the tray menu.
#[derive(Clone, Debug, PartialEq, Eq)]
pub enum TrayMenuEntry {
    /// An item to choose, with the id it reports and the title it shows.
    Item { id: String, title: String },
    /// A dividing line.
    Separator,
}

/// The mathematical value of a [`TrayMenuEntry`].
pub enum TrayMenuEntryModel {
    Item { id: Seq<char>, title: Seq<char> },
    Separator,
}

impl View for TrayMenuEntry {
    type V = TrayMenuEntryModel;

    open spec fn view(&self) -> TrayMenuEntryModel {
        match self {
            TrayMenuEntry::Item { id, title } => TrayMenuEntryModel::Item {
                id: id@,
                title: title@,
            },
            TrayMenuEntry::Separator => TrayMenuEntryModel::Separator,
        }
    }
}

/// What a menu item asks for, by its id.
pub open spec fn item_action(id: Seq<char>) -> TrayAction {
    if id == "quit"@ {
        TrayAction::Quit
    } else if id == "show"@ {
        TrayAction::ShowAndFocus
    } else if id == "hide"@ {
        TrayAction::Hide
    } else {
        TrayAction::Nothing
    }
}

/// What an event asks for: a left click shows the window, a menu item does
/// what its id says, anything else nothing.
pub open spec fn action_for(event: TrayEventModel) -> TrayAction {
    match event {
        TrayEventModel::LeftClick => TrayAction::ShowAndFocus,
        TrayEventModel::MenuItemClick { id } => item_action(id),
        TrayEventModel::Other => TrayAction::Nothing,
    }
}

/// The tray menu, top to bottom: Show, Hide, a dividing line, Quit.
pub open spec fn menu_model() -> Seq<TrayMenuEntryModel> {
    seq![
        TrayMenuEntryModel::Item { id: "show"@, title: "Show"@ },
        TrayMenuEntryModel::Item { id: "hide"@, title: "Hide"@ },
        TrayMenuEntryModel::Separator,
        TrayMenuEntryModel::Item { id: "quit"@, title: "Quit"@ },
    ]
}

/// What `event` asks for.
pub fn tray_action(event: &TrayEvent) -> (action: TrayAction)
    ensures
        action == action_for(event@),
{
    match event {
        TrayEvent::LeftClick => TrayAction::ShowAndFocus,
        TrayEvent::MenuItemClick { id } => {
            if str_equal(id.as_str(), "quit") {
                TrayAction::Quit
            } else if str_equal(id.as_str(), "show") {
                TrayAction::ShowAndFocus
            } else if str_equal(id.as_str(), "hide") {
                TrayAction::Hide
            } else {
                TrayAction::Nothing
            }
        },
        TrayEvent::Other => TrayAction::Nothing,
    }
}

/// The tray menu.
pub fn tray_menu() -> (menu: Vec<TrayMenuEntry>)
    ensures
        menu@.len() == menu_model().len(),
        forall|i: int| 0 <= i < menu@.len() ==> (#[trigger] menu@[i])@ == menu_model()[i],
{
    let mut menu: Vec<TrayMenuEntry> = Vec::new();
    menu.push(TrayMenuEntry::Item { id: "show".to_owned(), title: "Show".to_owned() });
    menu.push(TrayMenuEntry::Item { id: "hide".to_owned(), title: "Hide".to_owned() });
    menu.push(TrayMenuEntry::Separator);
    menu.push(TrayMenuEntry::Item { id: "quit".to_owned(), title: "Quit".to_owned() });
    menu
}

/// Every item of the tray menu asks for something, and no two items ask
/// for the same.
pub proof fn lemma_menu_items_act()
    ensures
        item_action("show"@) == TrayAction::ShowAndFocus,
        item_action("hide"@) == TrayAction::Hide,
        item_action("quit"@) == TrayAction::Quit,
{
    reveal_strlit("show");
    reveal_strlit("hide");
    reveal_strlit("quit");
    assert("show"@[0] != "quit"@[0]);
    assert("hide"@[0] != "quit"@[0]);
    assert("hide"@[0] != "show"@[0]);
}

} // verus!

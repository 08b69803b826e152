use vstd::prelude::*;

verus! {

/// A character that can be chosen on the selection screen.
#[derive(Clone, Debug)]
pub struct CharacterInfo {
    pub id: String,
    pub name: String,
    pub portrait: Option<String>,
}

/// What happens when a widget carrying this callback is activated. A
/// callback is a plain value, so the same one may be installed on several
/// widgets.
#[derive(Clone, Debug)]
pub enum Callback {
    /// Marks the activated widget's parent for removal (a dialog's cancel).
    RemoveParent,
    /// Clears the selector's selection and asks the main loop to exit.
    Exit,
    /// Opens the dialog confirming the deletion of a character, given by id
    /// and name.
    OpenDeleteDialog(String, String),
    /// Deletes the character with this id, removes the activated widget and
    /// clears the selection.
    ConfirmDelete(String),
    /// Makes the character the selector's selection.
    SelectCharacter(CharacterInfo),
    /// Opens the character builder as a modal child of the parent.
    NewCharacter,
    /// Asks the main loop to exit and shows the loading screen.
    Play,
}

} // verus!

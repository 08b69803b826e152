use vstd::prelude::*;

use crate::label::Label;

verus! {

/// The behaviour attached to one widget node. The set of behaviours is
/// closed; matching on the variant is the checked way to reach the
/// concrete behaviour of a node.
#[derive(Debug)]
pub enum WidgetKind {
    /// A plain container with no behaviour of its own.
    Empty,
    Label(Label),
    Button,
    TextArea,
    /// The area view; its state is held by its owner beside the tree.
    Area,
    /// A dialog with a title, a cancel and an accept button.
    ConfirmationWindow,
    /// The character selection screen; its state is held beside the tree.
    CharacterSelector,
    /// The character builder, opened over the selector.
    CharacterBuilder,
    /// The loading screen shown while a game starts.
    LoadingScreen,
    /// The ability description pane.
    AbilityPane,
    /// The menu of actions for the tile at `(x, y)`.
    ActionMenu(i32, i32),
    /// The transient widget describing the entity under the cursor.
    EntityMouseover(usize),
    /// The transient widget describing the prop under the cursor.
    PropMouseover(usize),
}

/// The tag of each behaviour, used to ask what a node is without
/// borrowing its contents.
#[derive(Clone, Copy, Debug, PartialEq, Eq, Structural)]
pub enum KindTag {
    Empty,
    Label,
    Button,
    TextArea,
    Area,
    ConfirmationWindow,
    CharacterSelector,
    CharacterBuilder,
    LoadingScreen,
    AbilityPane,
    ActionMenu,
    EntityMouseover,
    PropMouseover,
}

impl WidgetKind {
    pub open spec fn spec_tag(&self) -> KindTag {
        match self {
            WidgetKind::Empty => KindTag::Empty,
            WidgetKind::Label(_) => KindTag::Label,
            WidgetKind::Button => KindTag::Button,
            WidgetKind::TextArea => KindTag::TextArea,
            WidgetKind::Area => KindTag::Area,
            WidgetKind::ConfirmationWindow => KindTag::ConfirmationWindow,
            WidgetKind::CharacterSelector => KindTag::CharacterSelector,
            WidgetKind::CharacterBuilder => KindTag::CharacterBuilder,
            WidgetKind::LoadingScreen => KindTag::LoadingScreen,
            WidgetKind::AbilityPane => KindTag::AbilityPane,
            WidgetKind::ActionMenu(_, _) => KindTag::ActionMenu,
            WidgetKind::EntityMouseover(_) => KindTag::EntityMouseover,
            WidgetKind::PropMouseover(_) => KindTag::PropMouseover,
        }
    }

    /// True for the transient hover widgets; at most one of them is in a
    /// tree at a time.
    pub open spec fn is_hover(&self) -> bool {
        self is EntityMouseover || self is PropMouseover
    }

    pub fn tag(&self) -> (r: KindTag)
        ensures
            r == self.spec_tag(),
    {
        match self {
            WidgetKind::Empty => KindTag::Empty,
            WidgetKind::Label(_) => KindTag::Label,
            WidgetKind::Button => KindTag::Button,
            WidgetKind::TextArea => KindTag::TextArea,
            WidgetKind::Area => KindTag::Area,
            WidgetKind::ConfirmationWindow => KindTag::ConfirmationWindow,
            WidgetKind::CharacterSelector => KindTag::CharacterSelector,
            WidgetKind::CharacterBuilder => KindTag::CharacterBuilder,
            WidgetKind::LoadingScreen => KindTag::LoadingScreen,
            WidgetKind::AbilityPane => KindTag::AbilityPane,
            WidgetKind::ActionMenu(_, _) => KindTag::ActionMenu,
            WidgetKind::EntityMouseover(_) => KindTag::EntityMouseover,
            WidgetKind::PropMouseover(_) => KindTag::PropMouseover,
        }
    }
}

} // verus!

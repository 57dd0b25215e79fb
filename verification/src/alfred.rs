//! The items that Alfred's script filter reads, and their mathematical views.

use vstd::prelude::*;

verus! {

/// How Alfred treats an item.
#[derive(Clone, Copy, Debug, PartialEq, Eq, Structural)]
pub enum AlfredItemType {
    Default,
    File,
    FileSkipCheck,
}

/// How Alfred reads the path of an item's icon.
#[derive(Clone, Copy, Debug, PartialEq, Eq, Structural)]
pub enum ItemIconType {
    FilePath,
    IconForFileAtPath,
}

/// The icon of an item.
#[derive(Debug)]
pub struct ItemIcon {
    pub typ: ItemIconType,
    pub path: String,
}

/// One result row shown by Alfred.
#[derive(Debug)]
pub struct AlfredItem {
    pub uid: String,
    pub typ: AlfredItemType,
    pub title: String,
    pub subtitle: String,
    pub arg: String,
    /// text to fill when you press Tab on the item
    pub autocomplete: String,
    pub icon: ItemIcon,
}

/// The whole answer of a script filter.
#[derive(Debug)]
pub struct AlfredItems {
    pub items: Vec<AlfredItem>,
}

/// An icon with its path as characters.
pub struct ItemIconView {
    pub typ: ItemIconType,
    pub path: Seq<char>,
}

/// An item with its texts as characters.
pub struct AlfredItemView {
    pub uid: Seq<char>,
    pub typ: AlfredItemType,
    pub title: Seq<char>,
    pub subtitle: Seq<char>,
    pub arg: Seq<char>,
    pub autocomplete: Seq<char>,
    pub icon: ItemIconView,
}

impl View for ItemIcon {
    type V = ItemIconView;

    open spec fn view(&self) -> ItemIconView {
        ItemIconView { typ: self.typ, path: self.path@ }
    }
}

impl View for AlfredItem {
    type V = AlfredItemView;

    open spec fn view(&self) -> AlfredItemView {
        AlfredItemView {
            uid: self.uid@,
            typ: self.typ,
            title: self.title@,
            subtitle: self.subtitle@,
            arg: self.arg@,
            autocomplete: self.autocomplete@,
            icon: self.icon@,
        }
    }
}

impl View for AlfredItems {
    type V = Seq<AlfredItemView>;

    open spec fn view(&self) -> Seq<AlfredItemView> {
        self.items@.map_values(|i: AlfredItem| i@)
    }
}

/// The single item that the `debug` subcommand shows: the Desktop folder.
pub open spec fn debug_item_view() -> AlfredItemView {
    AlfredItemView {
        uid: "desktop"@,
        typ: AlfredItemType::File,
        title: "Desktop"@,
        subtitle: "~/Desktop"@,
        arg: "~/Desktop"@,
        autocomplete: "Desktop"@,
        icon: ItemIconView { typ: ItemIconType::IconForFileAtPath, path: "~/Desktop"@ },
    }
}

/// The answer of the `debug` subcommand.
pub fn debug_items() -> (r: AlfredItems)
    ensures
        r@ == seq![debug_item_view()],
{
    let item = AlfredItem {
        uid: String::from_str("desktop"),
        typ: AlfredItemType::File,
        title: String::from_str("Desktop"),
        subtitle: String::from_str("~/Desktop"),
        arg: String::from_str("~/Desktop"),
        autocomplete: String::from_str("Desktop"),
        icon: ItemIcon {
            typ: ItemIconType::IconForFileAtPath,
            path: String::from_str("~/Desktop"),
        },
    };
    let mut items: Vec<AlfredItem> = Vec::new();
    items.push(item);
    let r = AlfredItems { items };
    assert(r@ =~= seq![debug_item_view()]);
    r
}

} // verus!

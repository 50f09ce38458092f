//! The externally visible state of one tray item.

use vstd::prelude::*;

verus! {

/// An icon as it is published: its size in pixels and the file that holds
/// its image.
#[derive(Debug, PartialEq, Eq)]
pub struct Icon {
    pub width: usize,
    pub height: usize,
    pub path: String,
}

/// The mathematical value of an [`Icon`].
pub struct IconView {
    pub width: nat,
    pub height: nat,
    pub path: Seq<char>,
}

impl View for Icon {
    type V = IconView;

    open spec fn view(&self) -> IconView {
        IconView { width: self.width as nat, height: self.height as nat, path: self.path@ }
    }
}

impl Clone for Icon {
    fn clone(&self) -> (copy: Self)
        ensures
            copy@ == self@,
    {
        Icon { width: self.width, height: self.height, path: self.path.clone() }
    }
}

/// The title and icon of one peer at one instant.
#[derive(Debug, PartialEq, Eq)]
pub struct Item {
    pub title: String,
    pub icon: Icon,
}

/// The mathematical value of an [`Item`].
pub struct ItemView {
    pub title: Seq<char>,
    pub icon: IconView,
}

impl View for Item {
    type V = ItemView;

    open spec fn view(&self) -> ItemView {
        ItemView { title: self.title@, icon: self.icon@ }
    }
}

impl Clone for Item {
    fn clone(&self) -> (copy: Self)
        ensures
            copy@ == self@,
    {
        Item { title: self.title.clone(), icon: self.icon.clone() }
    }
}

/// The items of a list, each as its mathematical value.
pub open spec fn items_view(items: Seq<Item>) -> Seq<ItemView> {
    Seq::new(items.len(), |i: int| items[i]@)
}

} // verus!

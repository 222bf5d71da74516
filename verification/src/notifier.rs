//! Plain values of the notification-icon surface: statuses, categories,
//! images and tooltips, as the tray service serializes them.

use vstd::prelude::*;

verus! {

/// How urgently an item wants the user's attention.
#[derive(Clone, Copy, Debug, Eq, Hash, PartialEq, Structural)]
pub enum ItemStatus {
    /// The item does not ask to be shown.
    Passive,
    /// The item wants to be visible.
    Active,
    /// The item asks for immediate attention.
    NeedsAttention,
}

impl ItemStatus {
    /// The name the tray protocol serializes this status as.
    pub fn name(&self) -> (r: &'static str)
        ensures
            self is Passive ==> r@ == "Passive"@,
            self is Active ==> r@ == "Active"@,
            self is NeedsAttention ==> r@ == "NeedsAttention"@,
    {
        match self {
            Self::Passive => "Passive",
            Self::Active => "Active",
            Self::NeedsAttention => "NeedsAttention",
        }
    }
}

/// What kind of application an item represents.
#[derive(Clone, Copy, Debug, Eq, Hash, PartialEq, Structural)]
pub enum ItemCategory {
    /// An ordinary application's status.
    ApplicationStatus,
    /// A communication program.
    Communications,
    /// A system service.
    SystemServices,
    /// A hardware control.
    Hardware,
    /// Reserved for extensions.
    Reserved,
}

impl ItemCategory {
    /// The name the tray protocol serializes this category as.
    pub fn name(&self) -> (r: &'static str)
        ensures
            self is ApplicationStatus ==> r@ == "ApplicationStatus"@,
            self is Communications ==> r@ == "Communications"@,
            self is SystemServices ==> r@ == "SystemServices"@,
            self is Hardware ==> r@ == "Hardware"@,
            self is Reserved ==> r@ == "Reserved"@,
    {
        match self {
            Self::ApplicationStatus => "ApplicationStatus",
            Self::Communications => "Communications",
            Self::SystemServices => "SystemServices",
            Self::Hardware => "Hardware",
            Self::Reserved => "Reserved",
        }
    }
}

/// Whether a menu asks for attention.
#[derive(Clone, Copy, Debug, Eq, Hash, PartialEq, Structural)]
pub enum MenuStatus {
    /// Nothing special.
    Normal,
    /// The menu wants to be noticed.
    Notice,
}

impl MenuStatus {
    /// The name the menu protocol serializes this status as.
    pub fn name(&self) -> (r: &'static str)
        ensures
            self is Normal ==> r@ == "normal"@,
            self is Notice ==> r@ == "notice"@,
    {
        match self {
            Self::Normal => "normal",
            Self::Notice => "notice",
        }
    }
}

/// How the user interacted with a menu entry.
#[derive(Clone, Copy, Debug, Eq, Hash, PartialEq, Structural)]
pub enum MenuEvent {
    /// The entry was activated.
    Clicked,
    /// The pointer rested on the entry.
    Hovered,
}

impl MenuEvent {
    /// The name the menu protocol serializes this event as.
    pub fn name(&self) -> (r: &'static str)
        ensures
            self is Clicked ==> r@ == "clicked"@,
            self is Hovered ==> r@ == "hovered"@,
    {
        match self {
            Self::Clicked => "clicked",
            Self::Hovered => "hovered",
        }
    }
}

/// One icon image: big-endian 32-bit pixels, alpha first.
#[derive(Clone, Debug, Default, Eq, Hash, PartialEq)]
pub struct Image {
    /// The image's width in pixels.
    pub width: i32,
    /// The image's height in pixels.
    pub height: i32,
    /// The pixel data, four bytes per pixel.
    pub data: Vec<u8>,
}

impl Image {
    /// A well-formed image holds exactly four bytes per pixel.
    pub open spec fn well_formed(self) -> bool {
        self.width >= 0 && self.height >= 0 && self.data@.len() == self.width * self.height * 4
    }
}

/// The hover text of an item: an icon, alternate images, a title and a
/// subtitle.
#[derive(Clone, Debug, Default, Eq, Hash, PartialEq)]
pub struct ToolTip {
    /// The name of the icon to show.
    pub icon: String,
    /// Images to show where icon names cannot be resolved.
    pub images: Vec<Image>,
    /// The tooltip's title.
    pub title: String,
    /// The tooltip's body.
    pub sub_title: String,
}

} // verus!

//! The sidebar's filter categories, each with a display name, an icon name
//! and an accent color.

use vstd::prelude::*;

verus! {

/// The categories offered in the sidebar's filter pane.
#[allow(non_camel_case_types)]
#[derive(Clone, Copy, PartialEq, Eq, Structural, Debug)]
pub enum FilterType {
    INBOX,
    TODAY,
    SCHEDULED,
    PINBOARD,
    LABELS,
    COMPLETED,
}

impl FilterType {
    /// The category's display name.
    pub fn to_string(&self) -> (r: String)
        ensures
            match *self {
                FilterType::INBOX => r@ == "Inbox"@,
                FilterType::TODAY => r@ == "Today"@,
                FilterType::SCHEDULED => r@ == "Scheduled"@,
                FilterType::PINBOARD => r@ == "Pinboard"@,
                FilterType::LABELS => r@ == "Labels"@,
                FilterType::COMPLETED => r@ == "Completed"@,
            },
    {
        match self {
            FilterType::INBOX => "Inbox".to_owned(),
            FilterType::TODAY => "Today".to_owned(),
            FilterType::SCHEDULED => "Scheduled".to_owned(),
            FilterType::PINBOARD => "Pinboard".to_owned(),
            FilterType::LABELS => "Labels".to_owned(),
            FilterType::COMPLETED => "Completed".to_owned(),
        }
    }

    /// The name of the category's symbolic icon.
    pub fn get_icon(&self) -> (r: String)
        ensures
            match *self {
                FilterType::INBOX => r@ == "mailbox-symbolic"@,
                FilterType::TODAY => r@ == "star-outline-thick-symbolic"@,
                FilterType::SCHEDULED => r@ == "month-symbolic"@,
                FilterType::PINBOARD => r@ == "pin-symbolic"@,
                FilterType::LABELS => r@ == "tag-outline-symbolic"@,
                FilterType::COMPLETED => r@ == "check-round-outline-symbolic"@,
            },
    {
        match self {
            FilterType::INBOX => "mailbox-symbolic".to_owned(),
            FilterType::TODAY => "star-outline-thick-symbolic".to_owned(),
            FilterType::SCHEDULED => "month-symbolic".to_owned(),
            FilterType::PINBOARD => "pin-symbolic".to_owned(),
            FilterType::LABELS => "tag-outline-symbolic".to_owned(),
            FilterType::COMPLETED => "check-round-outline-symbolic".to_owned(),
        }
    }

    /// The category's accent color, as a hex triplet.
    pub fn get_color(&self) -> (r: String)
        ensures
            match *self {
                FilterType::INBOX => r@ == "#3584e4"@,
                FilterType::TODAY => r@ == "#33d17a"@,
                FilterType::SCHEDULED => r@ == "#9141ac"@,
                FilterType::PINBOARD => r@ == "#ed333b"@,
                FilterType::LABELS => r@ == "#986a44"@,
                FilterType::COMPLETED => r@ == "#ff7800"@,
            },
    {
        match self {
            FilterType::INBOX => "#3584e4".to_owned(),
            FilterType::TODAY => "#33d17a".to_owned(),
            FilterType::SCHEDULED => "#9141ac".to_owned(),
            FilterType::PINBOARD => "#ed333b".to_owned(),
            FilterType::LABELS => "#986a44".to_owned(),
            FilterType::COMPLETED => "#ff7800".to_owned(),
        }
    }
}

} // verus!

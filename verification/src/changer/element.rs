//! The elements of a medium changer.
use vstd::prelude::*;

verus! {

#[derive(Debug, Clone, Copy, PartialEq, Eq, Structural)]
pub enum ElementType {
    /// The robot arm.
    Transport,
    /// A storage slot.
    Storage,
    /// A mail slot.
    ImportExport,
    /// A tape drive.
    DataTransfer,
}

impl ElementType {
    /// The element type with this code.
    pub fn from_u8(val: u8) -> (r: Option<Self>)
        ensures
            r == (if val == 1 {
                Some(ElementType::Transport)
            } else if val == 2 {
                Some(ElementType::Storage)
            } else if val == 3 {
                Some(ElementType::ImportExport)
            } else if val == 4 {
                Some(ElementType::DataTransfer)
            } else {
                None::<ElementType>
            }),
    {
        match val {
            1 => Some(ElementType::Transport),
            2 => Some(ElementType::Storage),
            3 => Some(ElementType::ImportExport),
            4 => Some(ElementType::DataTransfer),
            _ => None,
        }
    }
}

/// Where the elements of each type begin, and how many there are.
#[derive(Debug, Clone, Copy, PartialEq, Eq, Structural)]
pub struct ElementAddressMap {
    pub transport_start: u16,
    pub transport_count: u16,
    pub storage_start: u16,
    pub storage_count: u16,
    pub ie_start: u16,
    pub ie_count: u16,
    pub dt_start: u16,
    pub dt_count: u16,
}

/// What the changer reports of one element.
#[derive(Debug)]
pub struct ElementStatus {
    pub address: u16,
    pub element_type: ElementType,
    /// Holds a medium.
    pub full: bool,
    /// The barcode of the medium.
    pub volume_tag: Option<String>,
    /// Where the medium came from.
    pub source_address: Option<u16>,
    /// The device identifier of a drive, where the library was asked for it: most often its serial
    /// number.
    pub drive_id: Option<String>,
}

#[verifier::ext_equal]
pub struct StatusView {
    pub address: u16,
    pub element_type: ElementType,
    pub full: bool,
    pub volume_tag: Option<Seq<char>>,
    pub source_address: Option<u16>,
    pub drive_id: Option<Seq<char>>,
}

impl View for ElementStatus {
    type V = StatusView;

    open spec fn view(&self) -> StatusView {
        StatusView {
            address: self.address,
            element_type: self.element_type,
            full: self.full,
            volume_tag: match self.volume_tag {
                Some(s) => Some(s@),
                None => None,
            },
            source_address: self.source_address,
            drive_id: match self.drive_id {
                Some(s) => Some(s@),
                None => None,
            },
        }
    }
}

/// What a list of reports says.
pub open spec fn status_views(v: Seq<ElementStatus>) -> Seq<StatusView> {
    v.map_values(|e: ElementStatus| e@)
}

} // verus!

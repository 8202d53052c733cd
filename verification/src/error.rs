//! What can go wrong with a tape library.
use vstd::prelude::*;

use crate::text;

verus! {

#[derive(Debug)]
pub enum TapeError {
    Io(String),
    ScsiCommand { status: u8, sense_key: u8, asc: u8, ascq: u8 },
    /// Another initiator holds a persistent reservation.
    ReservationConflict { device: String },
    /// The target is busy for the moment.
    Busy { device: String },
    /// Another SCSI status than good or check condition.
    ScsiStatus { device: String, status: u8 },
    ScsiHost(u16),
    ScsiDriver(u16),
    /// The command succeeded, but what the library reports afterwards disagrees.
    InconsistentState(String),
    NotReady(String),
    MoveFailed { reason: String },
    /// A guard refused the command; nothing was sent to the device.
    Refused { reason: String },
    InvalidResponse { expected: usize, actual: usize },
    Nix(String),
    Ltfs(String),
    Xml(String),
    XmlSource(String),
    Catalog(String),
    CatalogDb(String),
}

#[verifier::ext_equal]
pub enum TapeErrorView {
    Io(Seq<char>),
    ScsiCommand { status: u8, sense_key: u8, asc: u8, ascq: u8 },
    ReservationConflict { device: Seq<char> },
    Busy { device: Seq<char> },
    ScsiStatus { device: Seq<char>, status: u8 },
    ScsiHost(u16),
    ScsiDriver(u16),
    InconsistentState(Seq<char>),
    NotReady(Seq<char>),
    MoveFailed { reason: Seq<char> },
    Refused { reason: Seq<char> },
    InvalidResponse { expected: usize, actual: usize },
    Nix(Seq<char>),
    Ltfs(Seq<char>),
    Xml(Seq<char>),
    XmlSource(Seq<char>),
    Catalog(Seq<char>),
    CatalogDb(Seq<char>),
}

impl View for TapeError {
    type V = TapeErrorView;

    open spec fn view(&self) -> TapeErrorView {
        match *self {
            TapeError::Io(s) => TapeErrorView::Io(s@),
            TapeError::ScsiCommand { status, sense_key, asc, ascq } => {
                TapeErrorView::ScsiCommand { status, sense_key, asc, ascq }
            },
            TapeError::ReservationConflict { device } => {
                TapeErrorView::ReservationConflict { device: device@ }
            },
            TapeError::Busy { device } => TapeErrorView::Busy { device: device@ },
            TapeError::ScsiStatus { device, status } => {
                TapeErrorView::ScsiStatus { device: device@, status }
            },
            TapeError::ScsiHost(n) => TapeErrorView::ScsiHost(n),
            TapeError::ScsiDriver(n) => TapeErrorView::ScsiDriver(n),
            TapeError::InconsistentState(s) => TapeErrorView::InconsistentState(s@),
            TapeError::NotReady(s) => TapeErrorView::NotReady(s@),
            TapeError::MoveFailed { reason } => TapeErrorView::MoveFailed { reason: reason@ },
            TapeError::Refused { reason } => TapeErrorView::Refused { reason: reason@ },
            TapeError::InvalidResponse { expected, actual } => {
                TapeErrorView::InvalidResponse { expected, actual }
            },
            TapeError::Nix(s) => TapeErrorView::Nix(s@),
            TapeError::Ltfs(s) => TapeErrorView::Ltfs(s@),
            TapeError::Xml(s) => TapeErrorView::Xml(s@),
            TapeError::XmlSource(s) => TapeErrorView::XmlSource(s@),
            TapeError::Catalog(s) => TapeErrorView::Catalog(s@),
            TapeError::CatalogDb(s) => TapeErrorView::CatalogDb(s@),
        }
    }
}

impl TapeErrorView {
    /// The error in words.
    pub open spec fn message(self) -> Seq<char> {
        match self {
            TapeErrorView::Io(s) => "IO error: "@ + s,
            TapeErrorView::ScsiCommand { status, sense_key, asc, ascq } => {
                "SCSI command failed: status="@ + text::hex_byte(status) + ", sense_key="@
                    + text::hex_byte(sense_key) + ", asc="@ + text::hex_byte(asc) + ", ascq="@
                    + text::hex_byte(ascq)
            },
            TapeErrorView::ReservationConflict { device } => {
                "SCSI reservation conflict on "@ + device
                    + ": another initiator holds the reservation (run `sg_persist --in -r "@
                    + device + "` to see holder key, then coordinate release)"@
            },
            TapeErrorView::Busy { device } => "SCSI target busy on "@ + device,
            TapeErrorView::ScsiStatus { device, status } => {
                "SCSI command returned unexpected status "@ + text::hex_byte(status) + " on "@
                    + device
            },
            TapeErrorView::ScsiHost(n) => "SCSI host error: "@ + text::hex_address(n),
            TapeErrorView::ScsiDriver(n) => "SCSI driver error: "@ + text::hex_address(n),
            TapeErrorView::InconsistentState(s) => {
                "Library state inconsistent after operation: "@ + s
            },
            TapeErrorView::NotReady(s) => "Device not ready: "@ + s,
            TapeErrorView::MoveFailed { reason } => "Move failed: "@ + reason,
            TapeErrorView::Refused { reason } => "Refused: "@ + reason,
            TapeErrorView::InvalidResponse { expected, actual } => {
                "Invalid response: expected "@ + text::decimal(expected as nat) + " bytes, got "@
                    + text::decimal(actual as nat)
            },
            TapeErrorView::Nix(s) => "Nix errno: "@ + s,
            TapeErrorView::Ltfs(s) => "LTFS format error: "@ + s,
            TapeErrorView::Xml(s) => "XML error: "@ + s,
            TapeErrorView::XmlSource(_) => "XML parse error"@,
            TapeErrorView::Catalog(s) => "Catalog error: "@ + s,
            TapeErrorView::CatalogDb(_) => "Catalog DB error"@,
        }
    }

    /// The device belongs to someone else now: a reservation conflict, or a unit attention that
    /// says that reservations were taken over, released or lost by a reset. Errors of the medium
    /// are none of these.
    pub open spec fn ownership_lost(self) -> bool {
        match self {
            TapeErrorView::ReservationConflict { .. } => true,
            TapeErrorView::ScsiCommand { status: _, sense_key, asc, ascq } => sense_key == 6 && (
            asc == 0x29 || (asc == 0x2a && (ascq == 3 || ascq == 4 || ascq == 5))),
            _ => false,
        }
    }
}

impl TapeError {
    /// The error in words.
    pub fn message(&self) -> (r: String)
        ensures
            r@ == self@.message(),
    {
        match self {
            TapeError::Io(s) => text::cat2("IO error: ", s.as_str()),
            TapeError::ScsiCommand { status, sense_key, asc, ascq } => {
                let mut t = text::cat4(
                    "SCSI command failed: status=",
                    text::hex_byte_text(*status).as_str(),
                    ", sense_key=",
                    text::hex_byte_text(*sense_key).as_str(),
                );
                t.push_str(", asc=");
                t.push_str(text::hex_byte_text(*asc).as_str());
                t.push_str(", ascq=");
                t.push_str(text::hex_byte_text(*ascq).as_str());
                t
            },
            TapeError::ReservationConflict { device } => {
                let mut t = text::cat4(
                    "SCSI reservation conflict on ",
                    device.as_str(),
                    ": another initiator holds the reservation (run `sg_persist --in -r ",
                    device.as_str(),
                );
                t.push_str("` to see holder key, then coordinate release)");
                t
            },
            TapeError::Busy { device } => text::cat2("SCSI target busy on ", device.as_str()),
            TapeError::ScsiStatus { device, status } => text::cat4(
                "SCSI command returned unexpected status ",
                text::hex_byte_text(*status).as_str(),
                " on ",
                device.as_str(),
            ),
            TapeError::ScsiHost(n) => text::cat2(
                "SCSI host error: ",
                text::hex_address_text(*n).as_str(),
            ),
            TapeError::ScsiDriver(n) => text::cat2(
                "SCSI driver error: ",
                text::hex_address_text(*n).as_str(),
            ),
            TapeError::InconsistentState(s) => text::cat2(
                "Library state inconsistent after operation: ",
                s.as_str(),
            ),
            TapeError::NotReady(s) => text::cat2("Device not ready: ", s.as_str()),
            TapeError::MoveFailed { reason } => text::cat2("Move failed: ", reason.as_str()),
            TapeError::Refused { reason } => text::cat2("Refused: ", reason.as_str()),
            TapeError::InvalidResponse { expected, actual } => text::cat4(
                "Invalid response: expected ",
                text::decimal_text(*expected as u64).as_str(),
                " bytes, got ",
                text::decimal_text(*actual as u64).as_str(),
            ),
            TapeError::Nix(s) => text::cat2("Nix errno: ", s.as_str()),
            TapeError::Ltfs(s) => text::cat2("LTFS format error: ", s.as_str()),
            TapeError::Xml(s) => text::cat2("XML error: ", s.as_str()),
            TapeError::XmlSource(_) => "XML parse error".to_owned(),
            TapeError::Catalog(s) => text::cat2("Catalog error: ", s.as_str()),
            TapeError::CatalogDb(_) => "Catalog DB error".to_owned(),
        }
    }
}

impl TapeError {
    /// Whether the device belongs to someone else now.
    pub fn ownership_lost(&self) -> (r: bool)
        ensures
            r == self@.ownership_lost(),
    {
        match self {
            TapeError::ReservationConflict { .. } => true,
            TapeError::ScsiCommand { sense_key, asc, ascq, .. } => *sense_key == 6 && (*asc == 0x29
                || (*asc == 0x2a && (*ascq == 3 || *ascq == 4 || *ascq == 5))),
            _ => false,
        }
    }
}

} // verus!

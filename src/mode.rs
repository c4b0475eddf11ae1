//! States of the receiver.
use crate::encoder::Mode as Transmission;
use vstd::prelude::*;

verus! {

/// What the receiver is doing: waiting for a leader, waiting for the VIS
/// code, or receiving a picture in a transmission mode.
#[allow(non_camel_case_types)]
#[derive(PartialEq, Eq, Structural, Debug, Clone, Copy)]
pub enum Mode {
    Idle,
    VisFind,
    Scottie1,
    Scottie2,
    ScottieDx,
    Martin1,
    Martin2,
    Robot36,
    Robot72,
    WrasseSc2_180,
    P3,
    P5,
    P7,
    Pd50,
    Pd90,
    Pd120,
    Pd160,
    Pd180,
    Pd240,
    Pd290,
}

/// Whether the receiver is locked onto line timing.
#[derive(PartialEq, Eq, Structural, Debug, Clone, Copy)]
pub enum Sync {
    Sync,
    Unsync,
}

impl Mode {
    /// The transmission mode being received, if any.
    pub open spec fn format(self) -> Option<Transmission> {
        match self {
            Mode::Idle => None,
            Mode::VisFind => None,
            Mode::Scottie1 => Some(Transmission::Scottie1),
            Mode::Scottie2 => Some(Transmission::Scottie2),
            Mode::ScottieDx => Some(Transmission::ScottieDx),
            Mode::Martin1 => Some(Transmission::Martin1),
            Mode::Martin2 => Some(Transmission::Martin2),
            Mode::Robot36 => Some(Transmission::Robot36),
            Mode::Robot72 => Some(Transmission::Robot72),
            Mode::WrasseSc2_180 => Some(Transmission::WrasseSc2_180),
            Mode::P3 => Some(Transmission::P3),
            Mode::P5 => Some(Transmission::P5),
            Mode::P7 => Some(Transmission::P7),
            Mode::Pd50 => Some(Transmission::Pd50),
            Mode::Pd90 => Some(Transmission::Pd90),
            Mode::Pd120 => Some(Transmission::Pd120),
            Mode::Pd160 => Some(Transmission::Pd160),
            Mode::Pd180 => Some(Transmission::Pd180),
            Mode::Pd240 => Some(Transmission::Pd240),
            Mode::Pd290 => Some(Transmission::Pd290),
        }
    }

    pub fn transmission(&self) -> (r: Option<Transmission>)
        ensures
            r == self.format(),
    {
        match self {
            Mode::Idle => None,
            Mode::VisFind => None,
            Mode::Scottie1 => Some(Transmission::Scottie1),
            Mode::Scottie2 => Some(Transmission::Scottie2),
            Mode::ScottieDx => Some(Transmission::ScottieDx),
            Mode::Martin1 => Some(Transmission::Martin1),
            Mode::Martin2 => Some(Transmission::Martin2),
            Mode::Robot36 => Some(Transmission::Robot36),
            Mode::Robot72 => Some(Transmission::Robot72),
            Mode::WrasseSc2_180 => Some(Transmission::WrasseSc2_180),
            Mode::P3 => Some(Transmission::P3),
            Mode::P5 => Some(Transmission::P5),
            Mode::P7 => Some(Transmission::P7),
            Mode::Pd50 => Some(Transmission::Pd50),
            Mode::Pd90 => Some(Transmission::Pd90),
            Mode::Pd120 => Some(Transmission::Pd120),
            Mode::Pd160 => Some(Transmission::Pd160),
            Mode::Pd180 => Some(Transmission::Pd180),
            Mode::Pd240 => Some(Transmission::Pd240),
            Mode::Pd290 => Some(Transmission::Pd290),
        }
    }

    /// The state of receiving a picture in transmission mode `t`.
    pub fn receiving(t: Transmission) -> (r: Mode)
        ensures
            r.format() == Some(t),
    {
        match t {
            Transmission::Scottie1 => Mode::Scottie1,
            Transmission::Scottie2 => Mode::Scottie2,
            Transmission::ScottieDx => Mode::ScottieDx,
            Transmission::Martin1 => Mode::Martin1,
            Transmission::Martin2 => Mode::Martin2,
            Transmission::Robot36 => Mode::Robot36,
            Transmission::Robot72 => Mode::Robot72,
            Transmission::WrasseSc2_180 => Mode::WrasseSc2_180,
            Transmission::P3 => Mode::P3,
            Transmission::P5 => Mode::P5,
            Transmission::P7 => Mode::P7,
            Transmission::Pd50 => Mode::Pd50,
            Transmission::Pd90 => Mode::Pd90,
            Transmission::Pd120 => Mode::Pd120,
            Transmission::Pd160 => Mode::Pd160,
            Transmission::Pd180 => Mode::Pd180,
            Transmission::Pd240 => Mode::Pd240,
            Transmission::Pd290 => Mode::Pd290,
        }
    }
}

/// The receiving state of each transmission mode is the only state that
/// names it.
pub proof fn lemma_format_injective(a: Mode, b: Mode)
    requires
        a.format() is Some,
        a.format() == b.format(),
    ensures
        a == b,
{
}

} // verus!

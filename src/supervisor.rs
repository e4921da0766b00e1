use vstd::prelude::*;

verus! {

/// Pause between a failed Bluetooth attempt, or the end of a session, and
/// the next try.
pub const RETRY_DELAY_MS: u64 = 1000;

/// Which collaborators the proxy runs with.
#[derive(Clone, Copy, Debug, PartialEq, Eq, Structural)]
pub struct Setup {
    /// The phone is wired over USB; no Wi-Fi credentials are handed out.
    pub wired: bool,
    /// The head unit is an emulator on TCP; no USB gadget is used.
    pub emulator: bool,
}

/// Where the outer loop that restarts sessions stands.
#[derive(Clone, Copy, Debug, PartialEq, Eq, Structural)]
pub enum Stage {
    InitUsb,
    Bluetooth,
    BluetoothRetry,
    Accessory,
    AwaitRestart,
    Backoff,
}

/// The outside work the loop asks for next.
#[derive(Clone, Copy, Debug, PartialEq, Eq, Structural)]
pub enum Step {
    InitUsb,
    ConnectBluetooth,
    WaitForAccessory,
    WaitForRestart,
    Sleep(u64),
}

/// How the last piece of outside work ended.
#[derive(Clone, Copy, Debug, PartialEq, Eq, Structural)]
pub enum Outcome {
    Done,
    Failed,
}

pub open spec fn uses_usb(s: Setup) -> bool {
    !s.emulator
}

pub open spec fn uses_wifi(s: Setup) -> bool {
    !s.wired
}

pub open spec fn after_bluetooth(s: Setup) -> (Stage, Step) {
    if uses_usb(s) {
        (Stage::Accessory, Step::WaitForAccessory)
    } else {
        (Stage::AwaitRestart, Step::WaitForRestart)
    }
}

pub open spec fn after_usb(s: Setup) -> (Stage, Step) {
    if uses_wifi(s) {
        (Stage::Bluetooth, Step::ConnectBluetooth)
    } else {
        after_bluetooth(s)
    }
}

/// The first step of each round.
pub open spec fn round_start(s: Setup) -> (Stage, Step) {
    if uses_usb(s) {
        (Stage::InitUsb, Step::InitUsb)
    } else {
        after_usb(s)
    }
}

/// One decision of the outer loop. A USB initialisation error is reported
/// and the round goes on; a Bluetooth failure is retried after a pause;
/// when the session asks for a restart, a new round starts after a pause.
pub open spec fn supervise(s: Setup, stage: Stage, o: Outcome) -> (Stage, Step) {
    match stage {
        Stage::InitUsb => after_usb(s),
        Stage::Bluetooth => if o == Outcome::Failed {
            (Stage::BluetoothRetry, Step::Sleep(RETRY_DELAY_MS))
        } else {
            after_bluetooth(s)
        },
        Stage::BluetoothRetry => (Stage::Bluetooth, Step::ConnectBluetooth),
        Stage::Accessory => (Stage::AwaitRestart, Step::WaitForRestart),
        Stage::AwaitRestart => (Stage::Backoff, Step::Sleep(RETRY_DELAY_MS)),
        Stage::Backoff => round_start(s),
    }
}

fn after_bluetooth_exec(s: Setup) -> (r: (Stage, Step))
    ensures
        r == after_bluetooth(s),
{
    if !s.emulator {
        (Stage::Accessory, Step::WaitForAccessory)
    } else {
        (Stage::AwaitRestart, Step::WaitForRestart)
    }
}

fn after_usb_exec(s: Setup) -> (r: (Stage, Step))
    ensures
        r == after_usb(s),
{
    if !s.wired {
        (Stage::Bluetooth, Step::ConnectBluetooth)
    } else {
        after_bluetooth_exec(s)
    }
}

impl Setup {
    /// Where a round begins.
    pub fn start(&self) -> (r: (Stage, Step))
        ensures
            r == round_start(*self),
    {
        if !self.emulator {
            (Stage::InitUsb, Step::InitUsb)
        } else {
            after_usb_exec(*self)
        }
    }

    /// The next stage and step once the current step ended with `o`.
    pub fn next(&self, stage: Stage, o: Outcome) -> (r: (Stage, Step))
        ensures
            r == supervise(*self, stage, o),
    {
        match stage {
            Stage::InitUsb => after_usb_exec(*self),
            Stage::Bluetooth => {
                if o == Outcome::Failed {
                    (Stage::BluetoothRetry, Step::Sleep(RETRY_DELAY_MS))
                } else {
                    after_bluetooth_exec(*self)
                }
            },
            Stage::BluetoothRetry => (Stage::Bluetooth, Step::ConnectBluetooth),
            Stage::Accessory => (Stage::AwaitRestart, Step::WaitForRestart),
            Stage::AwaitRestart => (Stage::Backoff, Step::Sleep(RETRY_DELAY_MS)),
            Stage::Backoff => self.start(),
        }
    }
}

} // verus!

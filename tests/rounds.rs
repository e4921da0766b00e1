use aa_proxy_rs::supervisor::Outcome;
use aa_proxy_rs::supervisor::Setup;
use aa_proxy_rs::supervisor::Stage;
use aa_proxy_rs::supervisor::Step;

#[test]
fn wireless_round_goes_through_every_stage() {
    let setup = Setup { wired: false, emulator: false };
    let (stage, step) = setup.start();
    assert_eq!((stage, step), (Stage::InitUsb, Step::InitUsb));
    let (stage, step) = setup.next(stage, Outcome::Failed);
    assert_eq!((stage, step), (Stage::Bluetooth, Step::ConnectBluetooth));
    let (stage, step) = setup.next(stage, Outcome::Failed);
    assert_eq!((stage, step), (Stage::BluetoothRetry, Step::Sleep(1000)));
    let (stage, step) = setup.next(stage, Outcome::Done);
    assert_eq!((stage, step), (Stage::Bluetooth, Step::ConnectBluetooth));
    let (stage, step) = setup.next(stage, Outcome::Done);
    assert_eq!((stage, step), (Stage::Accessory, Step::WaitForAccessory));
    let (stage, step) = setup.next(stage, Outcome::Done);
    assert_eq!((stage, step), (Stage::AwaitRestart, Step::WaitForRestart));
    let (stage, step) = setup.next(stage, Outcome::Done);
    assert_eq!((stage, step), (Stage::Backoff, Step::Sleep(1000)));
    assert_eq!(setup.next(stage, Outcome::Done), (Stage::InitUsb, Step::InitUsb));
}

#[test]
fn wired_emulator_round_only_waits_for_restart() {
    let setup = Setup { wired: true, emulator: true };
    assert_eq!(setup.start(), (Stage::AwaitRestart, Step::WaitForRestart));
    assert_eq!(setup.next(Stage::AwaitRestart, Outcome::Done), (Stage::Backoff, Step::Sleep(1000)));
    assert_eq!(setup.next(Stage::Backoff, Outcome::Done), (Stage::AwaitRestart, Step::WaitForRestart));
}

#[test]
fn wireless_emulator_skips_usb() {
    let setup = Setup { wired: false, emulator: true };
    assert_eq!(setup.start(), (Stage::Bluetooth, Step::ConnectBluetooth));
    assert_eq!(setup.next(Stage::Bluetooth, Outcome::Done), (Stage::AwaitRestart, Step::WaitForRestart));
}

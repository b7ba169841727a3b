use kernel::boot::{advance, next_action, BootAction, BootStage};
use kernel::paging::is_valid_placement;
use kernel::pci::{bar_address, function_present};

fn run(outcomes: &[bool]) -> BootStage {
    outcomes.iter().fold(BootStage::Start, |s, &ok| advance(s, ok))
}

#[test]
fn boot_steps_in_order() {
    let mut stage = BootStage::Start;
    let mut actions = Vec::new();
    for _ in 0..6 {
        actions.push(next_action(stage));
        stage = advance(stage, true);
    }
    assert_eq!(
        actions,
        vec![
            BootAction::OpenRootDir,
            BootAction::SaveMemoryMap,
            BootAction::LoadKernel,
            BootAction::OpenDisplay,
            BootAction::ExitBootServices,
            BootAction::EnterKernel,
        ]
    );
    assert_eq!(next_action(stage), BootAction::Done);
}

#[test]
fn any_failure_aborts_before_the_kernel() {
    for failing in 0..5 {
        let mut outcomes = vec![true; 5];
        outcomes[failing] = false;
        let stage = run(&outcomes[..=failing]);
        assert_eq!(stage, BootStage::Aborted);
        assert_eq!(next_action(stage), BootAction::Abort);
        assert_eq!(next_action(run(&outcomes)), BootAction::Abort);
    }
    assert_eq!(next_action(run(&[true; 5])), BootAction::EnterKernel);
}

#[test]
fn presence_and_bar_helpers() {
    assert!(!function_present(0xffff_ffff));
    assert!(!function_present(0x1234_ffff));
    assert!(function_present(0x1234_8086));
    assert!(function_present(0xffff_0000));
    assert_eq!(bar_address(0xfebf_000c), 0xfebf_0000);
    assert_eq!(bar_address(0x1_0000_0004), 0x1_0000_0000);
}

#[test]
fn page_table_placement() {
    assert!(is_valid_placement(0x1000, 0x2000));
    assert!(!is_valid_placement(0x1001, 0x2000));
    assert!(!is_valid_placement(0x1000, 0x2800));
    assert!(!is_valid_placement(0x1000, 0xf_ffff_ffff_f000));
    assert!(!is_valid_placement(0x10_0000_0000_0000, 0x2000));
}

use sea_lantern::cancel::CancelSlot;

#[test]
fn latest_registration_wins_and_clear_empties() {
    let mut slot: CancelSlot<u32> = CancelSlot::new();
    assert!(slot.active().is_none());
    slot.register(1);
    slot.register(2);
    assert_eq!(slot.active(), Some(&2));
    slot.clear();
    assert!(slot.active().is_none());
}

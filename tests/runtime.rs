use struct_tools::builder::Slots;
use struct_tools::values::zip_names_values;

fn names(list: &[&str]) -> Vec<String> {
    list.iter().map(|s| s.to_string()).collect()
}

#[test]
fn build_reports_the_one_omitted_slot() {
    let slots: Slots<u32> = Slots::new(vec![None, None, None]);
    let r = slots.set(0, 10).set(2, 30).build();
    assert_eq!(r, Err(vec![1]));
}

#[test]
fn build_reports_every_unset_slot_in_order() {
    let slots: Slots<u32> = Slots::new(vec![None, Some(5), None, None]);
    assert_eq!(slots.set(2, 1).build(), Err(vec![0, 3]));
}

#[test]
fn build_hands_out_values_in_slot_order() {
    let slots: Slots<String> = Slots::new(vec![None, Some("default".to_string()), None]);
    let r = slots.set(2, "c".to_string()).set(0, "a".to_string()).set(2, "z".to_string()).build();
    assert_eq!(r, Ok(names(&["a", "default", "z"])));
}

#[test]
fn build_of_no_slots_succeeds() {
    let slots: Slots<u8> = Slots::new(vec![]);
    assert_eq!(slots.len(), 0);
    assert_eq!(slots.build(), Ok(vec![]));
}

#[test]
fn unset_lists_positions() {
    let slots: Slots<u8> = Slots::new(vec![Some(1), None, Some(2), None]);
    assert_eq!(slots.unset(), vec![1, 3]);
}

#[test]
fn pairs_follow_positions() {
    let r = zip_names_values(names(&["a", "b"]), vec![1, 2]);
    assert_eq!(r, vec![("a".to_string(), 1), ("b".to_string(), 2)]);
}

#[test]
fn pairs_stop_at_the_shorter_list() {
    assert_eq!(zip_names_values(names(&["a", "b", "c"]), vec![1]), vec![("a".to_string(), 1)]);
    assert_eq!(zip_names_values(names(&["a"]), vec![1, 2]), vec![("a".to_string(), 1)]);
    assert!(zip_names_values(vec![], vec![1, 2]).is_empty());
}

#[test]
fn report_picks_the_labels_of_unset_slots() {
    let slots: Slots<u8> = Slots::new(vec![Some(1), None, Some(2), None]);
    assert_eq!(slots.report(names(&["a", "b", "c", "d"])), names(&["b", "d"]));
    let full: Slots<u8> = Slots::new(vec![Some(1)]);
    assert!(full.report(names(&["a"])).is_empty());
}

use drehteller::image_store::ImageStore;
use drehteller::image_store::StoreError;

#[test]
fn new_store_is_empty() {
    let store = ImageStore::new();
    assert!(store.get_image_list().is_empty());
    assert_eq!(store.get_image(&String::from("0_0")), Err(StoreError::NotFound));
}

#[test]
fn store_then_fetch_round_trips_bytes() {
    let mut store = ImageStore::new();
    store.store_image(String::from("0_0"), &[1, 2, 3]);
    assert_eq!(store.get_image(&String::from("0_0")), Ok(vec![1, 2, 3]));
}

#[test]
fn listing_reports_names_in_insertion_order() {
    let mut store = ImageStore::new();
    store.store_image(String::from("0_0"), &[0]);
    store.store_image(String::from("0_1"), &[1]);
    store.store_image(String::from("1_0"), &[2]);
    assert_eq!(store.get_image_list(), vec!["0_0", "0_1", "1_0"]);
}

#[test]
fn storing_a_name_twice_keeps_one_entry_with_newest_bytes() {
    let mut store = ImageStore::new();
    store.store_image(String::from("0_0"), &[1]);
    store.store_image(String::from("0_0"), &[2, 2]);
    assert_eq!(store.get_image_list(), vec!["0_0"]);
    assert_eq!(store.get_image(&String::from("0_0")), Ok(vec![2, 2]));
}

#[test]
fn reset_makes_every_name_absent() {
    let mut store = ImageStore::new();
    store.store_image(String::from("0_0"), &[1]);
    store.store_image(String::from("0_1"), &[2]);
    store.reset();
    assert!(store.get_image_list().is_empty());
    assert_eq!(store.get_image(&String::from("0_0")), Err(StoreError::NotFound));
    assert_eq!(store.get_image(&String::from("0_1")), Err(StoreError::NotFound));
}

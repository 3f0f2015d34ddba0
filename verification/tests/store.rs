use wineshm::store::{refused, Removal, SHM_DIR};
use wineshm::{Page, Store};

fn page(name: &str, bytes: usize) -> Page {
    Page {
        name: name.to_string(),
        bytes,
    }
}

#[test]
fn a_page_lands_in_the_directory_under_its_own_name() {
    let store = Store::at("/dev/shm");
    assert_eq!(store.path(&page("acpmf_physics", 2048)), "/dev/shm/acpmf_physics");
}

#[test]
fn the_default_store_is_linux_shared_memory() {
    assert_eq!(Store::default().dir(), SHM_DIR);
    assert_eq!(Store::at("/tmp/x/").path(&page("p", 1)), "/tmp/x/p");
}

#[test]
fn a_path_is_joined_as_linux_joins_it() {
    assert_eq!(Store::at("").path(&page("a", 1)), "a");
    assert_eq!(Store::at("/d").path(&page("/abs", 1)), "/abs");
    assert_eq!(Store::at("/d/").path(&page("a", 1)), "/d/a");
    assert_eq!(Store::at("/d").path(&page("a", 1)), "/d/a");
}

#[test]
fn a_file_already_gone_is_not_left_behind() {
    let outcomes = vec![
        Removal::Removed,
        Removal::Refused,
        Removal::AlreadyGone,
        Removal::Refused,
    ];
    assert_eq!(refused(&outcomes), vec![1, 3]);
    assert_eq!(refused(&vec![Removal::AlreadyGone, Removal::Removed]), Vec::<usize>::new());
}

#[test]
fn the_note_lives_beside_the_pages() {
    assert_eq!(Store::at("/dev/shm").note_path(), "/dev/shm/wineshm.info");
    assert_eq!(Store::at("/tmp/x/").note_path(), "/tmp/x/wineshm.info");
}

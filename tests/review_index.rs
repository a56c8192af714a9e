use std::collections::BTreeSet;

use vouch::entity::{Comment, IndexError, Package, Review};
use vouch::review::{get, insert, remove, update, Fields};
use vouch::store::Store;

fn get_package(unique_tag: &str, store: &mut Store) -> Package {
    store
        .insert_package(
            &format!("test_package_name_{}", unique_tag),
            "test_package_version",
            "http://localhost/test_registry_human_url",
            "http://localhost/test_archive_url",
            "test_source_code_hash",
            "test_registry_host_name",
        )
        .unwrap()
}

fn comment_ids(review: &Review) -> Vec<u64> {
    review.comments.iter().map(|c| c.id).collect()
}

#[test]
fn test_insert_get_new_reviews() {
    let mut store = Store::new("root", "https://example.com/root.git");
    let package_1 = get_package("package_1", &mut store);
    let package_2 = get_package("package_2", &mut store);
    let root_peer = store.get_root().unwrap();

    let review_1 = insert(&Vec::<Comment>::new(), &root_peer, &package_1, &mut store).unwrap();
    let review_2 = insert(&Vec::<Comment>::new(), &root_peer, &package_2, &mut store).unwrap();

    let expected: BTreeSet<Review> = vec![review_1, review_2].into_iter().collect();
    let result: BTreeSet<Review> = get(&Fields::default(), &store).unwrap().into_iter().collect();
    assert_eq!(result, expected);
}

#[test]
fn insert_then_get_by_id_returns_exact_comments() {
    let mut store = Store::new("root", "https://example.com/root.git");
    let package = get_package("p", &mut store);
    let root = store.get_root().unwrap();
    let a = store.insert_comment("a", "first").unwrap();
    let b = store.insert_comment("b", "second").unwrap();
    let review = insert(&vec![a.clone(), b.clone()], &root, &package, &mut store).unwrap();

    let found = get(&Fields::with_id(review.id), &store).unwrap();
    assert_eq!(found.len(), 1);
    assert_eq!(found[0].comments, vec![a, b]);
    assert_eq!(found[0], review);
}

#[test]
fn update_replaces_comments_and_deletes_stale_ones() {
    let mut store = Store::new("root", "https://example.com/root.git");
    let package = get_package("p", &mut store);
    let root = store.get_root().unwrap();
    let a = store.insert_comment("a", "first").unwrap();
    let b = store.insert_comment("b", "second").unwrap();
    let mut review = insert(&vec![a.clone(), b.clone()], &root, &package, &mut store).unwrap();

    let c = store.insert_comment("c", "third").unwrap();
    review.comments = vec![a.clone(), c.clone()];
    update(&review, &mut store).unwrap();

    let found = get(&Fields::with_id(review.id), &store).unwrap();
    assert_eq!(comment_ids(&found[0]), vec![a.id, c.id]);
    assert!(store.comments.iter().all(|x| x.id != b.id));
    assert_eq!(store.comments.len(), 2);
}

#[test]
fn update_of_missing_review_is_not_found() {
    let mut store = Store::new("root", "https://example.com/root.git");
    let package = get_package("p", &mut store);
    let root = store.get_root().unwrap();
    let review = Review { id: 999, peer: root, package, comments: Vec::new() };
    assert_eq!(update(&review, &mut store), Err(IndexError::NotFound));
}

#[test]
fn second_review_of_same_pair_is_a_constraint_violation() {
    let mut store = Store::new("root", "https://example.com/root.git");
    let package = get_package("p", &mut store);
    let root = store.get_root().unwrap();
    insert(&Vec::new(), &root, &package, &mut store).unwrap();
    assert_eq!(
        insert(&Vec::new(), &root, &package, &mut store),
        Err(IndexError::ConstraintViolation)
    );
    assert_eq!(store.reviews.len(), 1);
}

#[test]
fn review_of_unknown_peer_is_a_reference_violation() {
    let mut store = Store::new("root", "https://example.com/root.git");
    let package = get_package("p", &mut store);
    let mut stranger = store.get_root().unwrap();
    stranger.id = 4242;
    assert_eq!(
        insert(&Vec::new(), &stranger, &package, &mut store),
        Err(IndexError::ReferenceViolation)
    );
}

#[test]
fn duplicate_package_and_peer_are_constraint_violations() {
    let mut store = Store::new("root", "https://example.com/root.git");
    get_package("p", &mut store);
    assert_eq!(
        store.insert_package(
            "test_package_name_p",
            "test_package_version",
            "u",
            "v",
            "h",
            "test_registry_host_name"
        ),
        Err(IndexError::ConstraintViolation)
    );
    assert_eq!(
        store.insert_peer("again", "https://example.com/root.git"),
        Err(IndexError::ConstraintViolation)
    );
    assert_eq!(store.registries.len(), 1);
}

#[test]
fn get_filters_by_package_name_and_host() {
    let mut store = Store::new("root", "https://example.com/root.git");
    let pkg_one = get_package("one", &mut store);
    let pkg_two = get_package("two", &mut store);
    let root = store.get_root().unwrap();
    insert(&Vec::new(), &root, &pkg_one, &mut store).unwrap();
    let r2 = insert(&Vec::new(), &root, &pkg_two, &mut store).unwrap();

    let mut fields = Fields::any();
    fields.package_name = Some("test_package_name_two".to_string());
    let found = get(&fields, &store).unwrap();
    assert_eq!(found, vec![r2]);

    fields.registry_host_name = Some("elsewhere".to_string());
    assert!(get(&fields, &store).unwrap().is_empty());
}

#[test]
fn get_reports_unresolvable_review_as_invariant_violation() {
    let mut store = Store::new("root", "https://example.com/root.git");
    let package = get_package("p", &mut store);
    let root = store.get_root().unwrap();
    insert(&Vec::new(), &root, &package, &mut store).unwrap();
    store.peers.clear();
    assert_eq!(get(&Fields::any(), &store), Err(IndexError::InvariantViolation));
}

#[test]
fn remove_deletes_matching_reviews_and_keeps_comments() {
    let mut store = Store::new("root", "https://example.com/root.git");
    let pkg_one = get_package("one", &mut store);
    let pkg_two = get_package("two", &mut store);
    let root = store.get_root().unwrap();
    let a = store.insert_comment("a", "kept").unwrap();
    insert(&vec![a], &root, &pkg_one, &mut store).unwrap();
    let r2 = insert(&Vec::new(), &root, &pkg_two, &mut store).unwrap();

    let mut fields = Fields::any();
    fields.package_name = Some("test_package_name_one".to_string());
    remove(&fields, &mut store);
    assert_eq!(get(&Fields::any(), &store).unwrap(), vec![r2]);
    assert_eq!(store.comments.len(), 1);
}

#[test]
fn well_formedness_is_checked() {
    let mut store = Store::new("root", "https://example.com/root.git");
    get_package("p", &mut store);
    assert!(store.is_wf());
    let copy = store.duplicate();
    assert!(copy.is_wf());
    assert_eq!(copy.packages, store.packages);

    let mut twin = store.duplicate();
    let mut again = twin.peers[0].clone();
    again.id = twin.next_id - 1;
    twin.peers.push(again);
    assert!(!twin.is_wf());

    let mut stale = store.duplicate();
    stale.next_id = 0;
    assert!(!stale.is_wf());
}

#[test]
fn review_listing_an_unstored_comment_is_a_reference_violation() {
    let mut store = Store::new("root", "https://example.com/root.git");
    let package = get_package("p", &mut store);
    let root = store.get_root().unwrap();
    let ghost = Comment { id: 777, summary: "x".to_string(), message: "y".to_string() };
    assert_eq!(insert(&vec![ghost], &root, &package, &mut store), Err(IndexError::ReferenceViolation));
    assert!(store.reviews.is_empty());
}

#[test]
fn inserted_review_carries_its_comments_as_read_back() {
    let mut store = Store::new("root", "https://example.com/root.git");
    let package = get_package("p", &mut store);
    let root = store.get_root().unwrap();
    let a = store.insert_comment("a", "first").unwrap();
    let b = store.insert_comment("b", "second").unwrap();
    let review = insert(&vec![b.clone(), a.clone(), b.clone()], &root, &package, &mut store).unwrap();
    assert_eq!(review.comments, vec![a, b]);
    assert_eq!(get(&Fields::with_id(review.id), &store).unwrap(), vec![review]);
}

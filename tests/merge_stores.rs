use vouch::entity::{IndexError, Review};
use vouch::merge::merge;
use vouch::review::{get, insert, Fields};
use vouch::store::{Store, StoreTransaction};

const HOST: &str = "npmjs.com";

fn incoming_store() -> Store {
    let mut s = Store::new("alice", "https://example.com/alice.git");
    let pkg = s.insert_package("left-pad", "1.3.0", "h", "a", "d", HOST).unwrap();
    let root = s.get_root().unwrap();
    let a = s.insert_comment("ok", "looks fine").unwrap();
    let b = s.insert_comment("nit", "tiny").unwrap();
    insert(&vec![a, b], &root, &pkg, &mut s).unwrap();
    s
}

fn local_store() -> Store {
    let mut s = Store::new("me", "https://example.com/me.git");
    // Padding rows shift the local surrogate ids away from the incoming ones.
    s.insert_comment("x", "y").unwrap();
    s.insert_package("other", "0.1.0", "h", "a", "d", HOST).unwrap();
    s.insert_peer("alice", "https://example.com/alice.git").unwrap();
    s.insert_package("left-pad", "1.3.0", "h", "a", "d", HOST).unwrap();
    s
}

fn texts(r: &Review) -> Vec<(String, String)> {
    r.comments.iter().map(|c| (c.summary.clone(), c.message.clone())).collect()
}

#[test]
fn merge_maps_by_natural_key_and_creates_no_peer() {
    let incoming = incoming_store();
    let mut local = local_store();
    let peers_before = local.peers.clone();
    let alice_local = local.peers.iter().find(|p| p.alias == "alice").unwrap().clone();
    let incoming_alice = incoming.get_root().unwrap();
    assert_ne!(alice_local.id, incoming_alice.id);

    let merged = merge(&incoming, &mut local).unwrap();
    assert_eq!(merged.len(), 1);
    assert_eq!(merged[0].peer, alice_local);
    assert_eq!(merged[0].package.name, "left-pad");
    assert_eq!(texts(&merged[0]), vec![
        ("ok".to_string(), "looks fine".to_string()),
        ("nit".to_string(), "tiny".to_string()),
    ]);
    assert_eq!(local.peers, peers_before);
    assert_eq!(get(&Fields::any(), &local).unwrap(), merged);
}

#[test]
fn merging_twice_equals_merging_once() {
    let incoming = incoming_store();
    let mut local = local_store();
    merge(&incoming, &mut local).unwrap();
    let reviews_once = get(&Fields::any(), &local).unwrap();
    let comments_once = local.comments.clone();

    let second = merge(&incoming, &mut local).unwrap();
    assert!(second.is_empty());
    assert_eq!(get(&Fields::any(), &local).unwrap(), reviews_once);
    assert_eq!(local.comments, comments_once);
}

#[test]
fn merge_without_local_peer_fails() {
    let incoming = incoming_store();
    let mut local = Store::new("me", "https://example.com/me.git");
    local.insert_package("left-pad", "1.3.0", "h", "a", "d", HOST).unwrap();
    assert_eq!(
        merge(&incoming, &mut local),
        Err(IndexError::PeerNotFound { git_url: "https://example.com/alice.git".to_string() })
    );
}

#[test]
fn merge_without_local_package_fails() {
    let incoming = incoming_store();
    let mut local = Store::new("me", "https://example.com/me.git");
    local.insert_peer("alice", "https://example.com/alice.git").unwrap();
    local.insert_package("left-pad", "9.9.9", "h", "a", "d", HOST).unwrap();
    assert_eq!(merge(&incoming, &mut local), Err(IndexError::PackageNotFound {
            registry_host_name: HOST.to_string(),
            name: "left-pad".to_string(),
            version: "1.3.0".to_string(),
        }));
}

#[test]
fn rollback_discards_the_work_of_a_failed_merge() {
    let incoming = incoming_store();
    let mut local = Store::new("me", "https://example.com/me.git");
    local.insert_peer("alice", "https://example.com/alice.git").unwrap();
    let mut tx = StoreTransaction::begin(local);
    tx.working.insert_comment("draft", "scratch").unwrap();
    assert_eq!(merge(&incoming, &mut tx.working), Err(IndexError::PackageNotFound {
            registry_host_name: HOST.to_string(),
            name: "left-pad".to_string(),
            version: "1.3.0".to_string(),
        }));
    let local = tx.rollback();
    assert!(local.comments.is_empty());
    assert!(local.reviews.is_empty());
}

#[test]
fn commit_keeps_the_work_of_a_merge() {
    let incoming = incoming_store();
    let mut tx = StoreTransaction::begin(local_store());
    let merged = merge(&incoming, &mut tx.working).unwrap();
    let local = tx.commit();
    assert_eq!(get(&Fields::any(), &local).unwrap(), merged);
    assert_eq!(local.comments.len(), 3);
}

#[test]
fn merge_of_a_corrupt_incoming_store_fails() {
    let mut incoming = incoming_store();
    incoming.packages.clear();
    let mut local = local_store();
    assert_eq!(merge(&incoming, &mut local), Err(IndexError::InvariantViolation));
}

#[test]
fn merged_reviews_are_stored_with_fresh_comment_rows() {
    let incoming = incoming_store();
    let mut local = local_store();
    let comments_before = local.comments.clone();
    let first_fresh_id = local.next_id;
    let merged = merge(&incoming, &mut local).unwrap();
    assert_eq!(local.comments[..comments_before.len()], comments_before[..]);
    for review in &merged {
        assert_eq!(get(&Fields::with_id(review.id), &local).unwrap(), vec![review.clone()]);
        for c in &review.comments {
            assert!(c.id >= first_fresh_id);
            assert!(local.comments.contains(c));
        }
    }
}

#[test]
fn failed_merge_leaves_the_store_untouched() {
    let mut incoming = incoming_store();
    let root = incoming.get_root().unwrap();
    let other = incoming.insert_package("zzz", "1.0.0", "h", "a", "d", HOST).unwrap();
    insert(&Vec::new(), &root, &other, &mut incoming).unwrap();
    let mut local = local_store();
    let comments_before = local.comments.clone();
    assert_eq!(
        merge(&incoming, &mut local),
        Err(IndexError::PackageNotFound {
            registry_host_name: HOST.to_string(),
            name: "zzz".to_string(),
            version: "1.0.0".to_string(),
        })
    );
    assert_eq!(local.comments, comments_before);
    assert!(local.reviews.is_empty());
}

use vstd::prelude::*;
use crate::entity::{Comment, ID, IndexError, Package, Peer, Review, ReviewRow, ReviewRowView, ReviewView};
use crate::review::{Fields, any_fields, comments_stored, id_stored, refs_ok, comments_with_ids, get, ids_of, insert, pair_index, pair_taken, selected};
use crate::store::{Store, package_row_by_id, peer_by_id, has_package_key, package_by_id, package_key};

verus! {

/// The peer of the table with the given transport URL, if any.
pub open spec fn peer_with_url(peers: Seq<Peer>, url: Seq<char>) -> Option<Peer> {
    if exists|i: int| 0 <= i < peers.len() && peers[i].git_url@ == url {
        Some(peers[choose|i: int| 0 <= i < peers.len() && peers[i].git_url@ == url])
    } else {
        None
    }
}

/// The package of the store with the given natural key, if any.
pub open spec fn package_with_key(s: Store, key: (Seq<char>, Seq<char>, Seq<char>)) -> Option<Package> {
    if has_package_key(s, key) {
        package_by_id(
            s,
            choose|id: ID| #[trigger] package_by_id(s, id) is Some && package_key(package_by_id(s, id)->0) == key,
        )
    } else {
        None
    }
}

/// The review's peer and package both have a local counterpart by natural key.
pub open spec fn resolves(s: Store, v: ReviewView) -> bool {
    peer_with_url(s.peers@, v.peer.git_url@) is Some && package_with_key(s, package_key(v.package)) is Some
}

/// The local (peer id, package id) pair that the review maps to.
pub open spec fn local_pair(s: Store, v: ReviewView) -> (ID, ID) {
    (peer_with_url(s.peers@, v.peer.git_url@)->0.id, package_with_key(s, package_key(v.package))->0.id)
}

/// Two comment lists carry the same texts, in order.
pub open spec fn same_texts(a: Seq<Comment>, b: Seq<Comment>) -> bool {
    a.len() == b.len() && forall|k: int| 0 <= k < a.len() ==> a[k].summary@ == b[k].summary@
        && a[k].message@ == b[k].message@
}

/// `n` is the local review inserted for the incoming review `v`: it has
/// `v`'s local peer and package and `v`'s comment texts, and the local store
/// `s` did not review that pair before.
pub open spec fn merged_from(s: Store, n: ReviewView, v: ReviewView) -> bool {
    &&& n.peer == peer_with_url(s.peers@, v.peer.git_url@)->0
    &&& n.package == package_with_key(s, package_key(v.package))->0
    &&& same_texts(n.comments, v.comments)
    &&& !pair_taken(s.reviews@, local_pair(s, v).0, local_pair(s, v).1)
}

/// The incoming reviews that a merge into `s` inserts, in order: those whose
/// local pair `s` does not review yet and no earlier one of them maps to.
pub open spec fn pending(s: Store, vs: Seq<ReviewView>) -> Seq<ReviewView>
    decreases vs.len(),
{
    if vs.len() == 0 {
        Seq::empty()
    } else {
        let p = pending(s, vs.drop_last());
        let v = vs.last();
        if pair_taken(s.reviews@, local_pair(s, v).0, local_pair(s, v).1)
            || exists|k: int| 0 <= k < p.len() && local_pair(s, #[trigger] p[k]) == local_pair(s, v) {
            p
        } else {
            p.push(v)
        }
    }
}

/// The views of a list of reviews.
pub open spec fn review_views(rs: Seq<Review>) -> Seq<ReviewView> {
    rs.map_values(|x: Review| x@)
}

/// The first incoming review, in order, without a local peer or package.
pub open spec fn first_unresolved(s: Store, vs: Seq<ReviewView>) -> Option<int> {
    if exists|i: int| 0 <= i < vs.len() && !resolves(s, #[trigger] vs[i]) {
        Some(choose|i: int| 0 <= i < vs.len() && !resolves(s, #[trigger] vs[i])
            && forall|j: int| 0 <= j < i ==> resolves(s, #[trigger] vs[j]))
    } else {
        None
    }
}

/// The error for an incoming review that does not resolve, naming the
/// natural key that was not found: its peer is looked up first.
pub open spec fn unresolved_error(s: Store, v: ReviewView) -> IndexError {
    if peer_with_url(s.peers@, v.peer.git_url@) is None {
        IndexError::PeerNotFound { git_url: v.peer.git_url }
    } else {
        IndexError::PackageNotFound {
            registry_host_name: v.package.registry.host_name,
            name: v.package.name,
            version: v.package.version,
        }
    }
}

/// The stored row of a resolved review.
pub open spec fn row_view(n: ReviewView) -> ReviewRowView {
    ReviewRowView { id: n.id, peer_id: n.peer.id, package_id: n.package.id, comment_ids: ids_of(n.comments) }
}

/// The comment is stored in `after` under an id that `before` had not yet handed out.
pub open spec fn fresh_comment(before: Store, after: Store, c: Comment) -> bool {
    c.id >= before.next_id && after.comments@.contains(c)
}

/// The rows are those of `before` followed by one row for each new review,
/// each new review being the one inserted for the matching pending review.
pub open spec fn rows_extend(before: Store, rows: Seq<ReviewRow>, news: Seq<ReviewView>, pend: Seq<ReviewView>) -> bool {
    &&& rows.len() == before.reviews@.len() + news.len()
    &&& news.len() == pend.len()
    &&& forall|k: int| 0 <= k < before.reviews@.len() ==> #[trigger] rows[k] == before.reviews@[k]
    &&& forall|n: int| 0 <= n < news.len() ==> merged_from(before, #[trigger] news[n], pend[n])
        && rows[before.reviews@.len() + n]@ == row_view(news[n])
}

/// Rows extended by new reviews review a pair exactly where the old rows did
/// or a pending review maps to it.
pub proof fn lemma_taken_split(
    before: Store,
    rows: Seq<ReviewRow>,
    news: Seq<ReviewView>,
    pend: Seq<ReviewView>,
    a: ID,
    b: ID,
)
    requires
        rows_extend(before, rows, news, pend),
    ensures
        pair_taken(rows, a, b) <==> (pair_taken(before.reviews@, a, b)
            || exists|k: int| 0 <= k < pend.len() && local_pair(before, #[trigger] pend[k]) == (a, b)),
{
    let m = before.reviews@.len();
    if pair_taken(rows, a, b) {
        let j = choose|j: int| 0 <= j < rows.len() && rows[j].peer_id == a && rows[j].package_id == b;
        if j < m {
            assert(rows[j] == before.reviews@[j]);
        } else {
            let n = j - m;
            assert(merged_from(before, news[n], pend[n]));
            assert(rows[m + n]@ == row_view(news[n]));
            assert(local_pair(before, pend[n]) == (a, b));
        }
    }
    if pair_taken(before.reviews@, a, b) {
        let j = choose|j: int| 0 <= j < m && before.reviews@[j].peer_id == a && before.reviews@[j].package_id == b;
        assert(rows[j] == before.reviews@[j]);
    }
    if exists|k: int| 0 <= k < pend.len() && local_pair(before, #[trigger] pend[k]) == (a, b) {
        let k = choose|k: int| 0 <= k < pend.len() && local_pair(before, #[trigger] pend[k]) == (a, b);
        assert(merged_from(before, news[k], pend[k]));
        assert(rows[m + k]@ == row_view(news[k]));
    }
}

/// The reviews that `incoming` holds, as the unfiltered read gives them.
pub open spec fn incoming_view(incoming: Store) -> Option<Seq<ReviewView>> {
    selected(incoming, any_fields(), incoming.reviews@)
}

/// The ids that merging `incoming` may use up at most.
pub open spec fn merge_id_bound(incoming: Store) -> int {
    (incoming.reviews@.len() * (incoming.comments@.len() + 1)) as int
}

/// A filtered comment list is no longer than the table.
pub proof fn lemma_comments_with_ids_len(cs: Seq<Comment>, ids: Seq<ID>)
    ensures
        comments_with_ids(cs, ids).len() <= cs.len(),
    decreases cs.len(),
{
    if cs.len() > 0 {
        lemma_comments_with_ids_len(cs.drop_last(), ids);
    }
}

/// The selected reviews are at most as many as the rows.
pub proof fn lemma_selected_len(s: Store, f: Fields, rows: Seq<ReviewRow>)
    ensures
        selected(s, f, rows) matches Some(v) ==> v.len() <= rows.len()
            && forall|k: int| 0 <= k < v.len() ==> v[k].comments.len() <= s.comments@.len(),
    decreases rows.len(),
{
    if rows.len() > 0 {
        lemma_selected_len(s, f, rows.drop_last());
        let row = rows.last();
        lemma_comments_with_ids_len(s.comments@, row.comment_ids@);
    }
}

/// Ids used before and during the `i`-th review stay within the budget of
/// `i + 1` reviews.
pub proof fn lemma_budget(i: int, c: int, n: int, total: int)
    requires
        0 <= i < total,
        0 <= n <= c,
    ensures
        i * (c + 1) <= (i + 1) * (c + 1),
        i * (c + 1) + n < (i + 1) * (c + 1),
        (i + 1) * (c + 1) <= total * (c + 1),
{
    assert((i + 1) * (c + 1) == i * (c + 1) + c + 1) by (nonlinear_arith);
    assert((i + 1) * (c + 1) <= total * (c + 1)) by (nonlinear_arith)
        requires
            i + 1 <= total,
            c >= 0,
    ;
}

/// In a well-formed store a natural key names at most one package.
pub proof fn lemma_package_key_unique(s: Store, id1: ID, id2: ID)
    requires
        s.wf(),
        package_by_id(s, id1) is Some,
        package_by_id(s, id2) is Some,
        package_key(package_by_id(s, id1)->0) == package_key(package_by_id(s, id2)->0),
    ensures
        id1 == id2,
{
    let m1 = choose|i: int| 0 <= i < s.packages@.len() && s.packages@[i].id == id1;
    let m2 = choose|i: int| 0 <= i < s.packages@.len() && s.packages@[i].id == id2;
    let r1 = s.packages@[m1];
    let r2 = s.packages@[m2];
    let k1 = choose|i: int| 0 <= i < s.registries@.len() && s.registries@[i].id == r1.registry_id;
    let k2 = choose|i: int| 0 <= i < s.registries@.len() && s.registries@[i].id == r2.registry_id;
    assert(s.registries@[k1].host_name@ == s.registries@[k2].host_name@);
    if k1 != k2 {
        if k1 < k2 {
            assert(false);
        } else {
            assert(false);
        }
    }
    if m1 != m2 {
        if m1 < m2 {
            assert(false);
        } else {
            assert(false);
        }
    }
}

/// What a merge of `incoming` into the store `before` may end in, where it
/// leaves the store `after` and returns `r`. Peers, packages and registries
/// are untouched and the rows already there stay. `InvariantViolation` comes
/// exactly where `incoming` cannot be read; else the first incoming review
/// without a local peer or package decides the error, and the store is left
/// as it was. Where all resolve, the merge succeeds unless the ids run out,
/// and always where every pair is reviewed already or the ids suffice. On
/// success the result is exactly the pending reviews' new rows, in order,
/// with comments stored afresh, and every incoming pair is reviewed.
pub open spec fn merge_outcome(incoming: Store, before: Store, after: Store, r: Result<Vec<Review>, IndexError>) -> bool {
    &&& after.peers == before.peers
    &&& after.packages == before.packages
    &&& after.registries == before.registries
    &&& after.root_id == before.root_id
    &&& forall|k: int| 0 <= k < before.reviews@.len() ==> k < after.reviews@.len()
        && #[trigger] after.reviews@[k] == before.reviews@[k]
    &&& before.comments@.len() <= after.comments@.len()
    &&& after.comments@.subrange(0, before.comments@.len() as int) == before.comments@
    &&& (r == Err::<Vec<Review>, IndexError>(IndexError::InvariantViolation) <==> incoming_view(incoming) is None)
    &&& incoming_view(incoming) is None ==> after == before
    &&& incoming_view(incoming) matches Some(vs) ==> match first_unresolved(before, vs) {
        Some(i) => r == Err::<Vec<Review>, IndexError>(unresolved_error(before, vs[i])) && after == before,
        None => {
            &&& (r is Ok || r == Err::<Vec<Review>, IndexError>(IndexError::IdsExhausted))
            &&& before.next_id + merge_id_bound(incoming) < u64::MAX ==> r is Ok
            &&& (forall|i: int| 0 <= i < vs.len() ==> pair_taken(before.reviews@,
                local_pair(before, #[trigger] vs[i]).0, local_pair(before, vs[i]).1)) ==> r is Ok
        },
    }
    &&& r is Ok ==> {
        let vs = incoming_view(incoming)->0;
        let pend = pending(before, vs);
        &&& incoming_view(incoming) is Some
        &&& forall|i: int| 0 <= i < vs.len() ==> resolves(before, #[trigger] vs[i])
            && pair_taken(after.reviews@, local_pair(before, vs[i]).0, local_pair(before, vs[i]).1)
        &&& (forall|i: int| 0 <= i < vs.len() ==> pair_taken(before.reviews@,
            local_pair(before, #[trigger] vs[i]).0, local_pair(before, vs[i]).1))
            ==> after.reviews == before.reviews && after.comments == before.comments
        &&& rows_extend(before, after.reviews@, review_views(r->Ok_0@), pend)
        &&& forall|n: int, k: int| 0 <= n < r->Ok_0@.len() && 0 <= k < r->Ok_0@[n].comments@.len()
            ==> fresh_comment(before, after, #[trigger] r->Ok_0@[n].comments@[k])
    }
}

/// Stores a fresh copy of each comment, under new consecutive ids, after the
/// comments already stored; where the ids would run out nothing is stored.
pub fn insert_comment_copies(source: &Vec<Comment>, store: &mut Store) -> (r: Result<Vec<Comment>, IndexError>)
    requires
        old(store).wf(),
    ensures
        final(store).wf(),
        final(store).peers == old(store).peers,
        final(store).packages == old(store).packages,
        final(store).registries == old(store).registries,
        final(store).reviews == old(store).reviews,
        final(store).root_id == old(store).root_id,
        old(store).next_id + source@.len() < u64::MAX <==> r is Ok,
        r is Ok ==> same_texts(r->Ok_0@, source@) && final(store).next_id == old(store).next_id + source@.len()
            && final(store).comments@ == old(store).comments@ + r->Ok_0@
            && forall|k: int| 0 <= k < r->Ok_0@.len() ==> #[trigger] r->Ok_0@[k].id == old(store).next_id + k,
        r is Err ==> r == Err::<Vec<Comment>, IndexError>(IndexError::IdsExhausted) && *final(store) == *old(store),
{
    if store.next_id >= u64::MAX - source.len() as u64 {
        return Err(IndexError::IdsExhausted);
    }
    let mut comments: Vec<Comment> = Vec::new();
    let mut k: usize = 0;
    while k < source.len()
        invariant
            store.wf(),
            store.peers == old(store).peers,
            store.packages == old(store).packages,
            store.registries == old(store).registries,
            store.reviews == old(store).reviews,
            store.root_id == old(store).root_id,
            old(store).next_id + source@.len() < u64::MAX,
            k <= source@.len(),
            store.next_id == old(store).next_id + k,
            same_texts(comments@, source@.subrange(0, k as int)),
            store.comments@ == old(store).comments@ + comments@,
            forall|m: int| 0 <= m < comments@.len() ==> #[trigger] comments@[m].id == old(store).next_id + m,
        decreases source@.len() - k,
    {
        let c = match store.insert_comment(source[k].summary.as_str(), source[k].message.as_str()) {
            Ok(c) => c,
            Err(e) => return Err(e),
        };
        comments.push(c);
        k += 1;
    }
    assert(source@.subrange(0, source@.len() as int) =~= source@);
    Ok(comments)
}

/// Imports the reviews of `incoming` into `store`. Each incoming review is
/// mapped to the local peer with the same transport URL and to the local
/// package with the same (registry host, name, version); peers and packages
/// are never created here, and a review without both local counterparts
/// fails the whole merge before anything is stored. Where the local store
/// already reviews the pair the review is skipped; else its comments are
/// stored afresh and a review of the pair with those comments is inserted.
/// Returns the newly inserted reviews, in order. Where the ids run out the
/// store may hold part of the work: the caller discards it.
#[verifier::rlimit(100)]
#[verifier::spinoff_prover]
pub fn merge(incoming: &Store, store: &mut Store) -> (r: Result<Vec<Review>, IndexError>)
    requires
        incoming.wf(),
        old(store).wf(),
    ensures
        final(store).wf(),
        merge_outcome(*incoming, *old(store), *final(store), r),
{
    assert(store.comments@.subrange(0, store.comments@.len() as int) =~= store.comments@);
    let incoming_reviews = get(&Fields::any(), incoming)?;
    let ghost vs = review_views(incoming_reviews@);
    proof {
        lemma_selected_len(*incoming, any_fields(), incoming.reviews@);
    }
    let mut peers: Vec<Peer> = Vec::new();
    let mut packages: Vec<Package> = Vec::new();
    let mut i: usize = 0;
    while i < incoming_reviews.len()
        invariant
            *store == *old(store),
            store.wf(),
            vs == review_views(incoming_reviews@),
            Some(vs) == incoming_view(*incoming),
            i <= vs.len(),
            peers@.len() == i,
            packages@.len() == i,
            forall|k: int| 0 <= k < i ==> resolves(*store, #[trigger] vs[k])
                && peers@[k] == peer_with_url(store.peers@, vs[k].peer.git_url@)->0
                && packages@[k] == package_with_key(*store, package_key(vs[k].package))->0,
        decreases vs.len() - i,
    {
        let review = &incoming_reviews[i];
        assert(vs[i as int] == review@);
        let peer = match store.peer_index_by_git_url(review.peer.git_url.as_str()) {
            Some(k) => store.peers[k].clone(),
            None => {
                proof {
                    assert(peer_with_url(store.peers@, vs[i as int].peer.git_url@) is None);
                    lemma_first_unresolved(*store, vs, i as int);
                }
                let e = IndexError::PeerNotFound { git_url: review.peer.git_url.clone() };
                proof {
                    assert(unresolved_error(*old(store), vs[i as int]) == e);
                    lemma_unresolved_outcome(*incoming, *store, vs, i as int, e);
                }
                return Err(e);
            },
        };
        proof {
            let m = choose|m: int| 0 <= m < store.peers@.len() && store.peers@[m].git_url@ == vs[i as int].peer.git_url@;
            assert(peer_with_url(store.peers@, vs[i as int].peer.git_url@) == Some(peer));
        }
        let package = match store.find_package(
            review.package.registry.host_name.as_str(),
            review.package.name.as_str(),
            review.package.version.as_str(),
        ) {
            Some(p) => p,
            None => {
                proof {
                    assert(!has_package_key(*store, package_key(vs[i as int].package)));
                    assert(package_with_key(*store, package_key(vs[i as int].package)) is None);
                    lemma_first_unresolved(*store, vs, i as int);
                }
                let e = IndexError::PackageNotFound {
                    registry_host_name: review.package.registry.host_name.clone(),
                    name: review.package.name.clone(),
                    version: review.package.version.clone(),
                };
                proof {
                    assert(unresolved_error(*old(store), vs[i as int]) == e);
                    lemma_unresolved_outcome(*incoming, *store, vs, i as int, e);
                }
                return Err(e);
            },
        };
        proof {
            let v = vs[i as int];
            let id2 = choose|id: ID| #[trigger] package_by_id(*store, id) is Some
                && package_key(package_by_id(*store, id)->0) == package_key(v.package);
            lemma_package_key_unique(*store, package.id, id2);
            assert(package_with_key(*store, package_key(v.package)) == Some(package));
        }
        peers.push(peer);
        packages.push(package);
        i += 1;
    }
    proof {
        if first_unresolved(*old(store), vs) is Some {
            let k = choose|k: int| 0 <= k < vs.len() && !resolves(*old(store), #[trigger] vs[k]);
        }
        assert(pending(*old(store), vs.subrange(0, 0)) =~= Seq::<ReviewView>::empty());
    }
    let mut new_reviews: Vec<Review> = Vec::new();
    assert(review_views(new_reviews@) =~= Seq::<ReviewView>::empty());
    i = 0;
    while i < incoming_reviews.len()
        invariant
            store.wf(),
            old(store).wf(),
            store.peers == old(store).peers,
            store.packages == old(store).packages,
            store.registries == old(store).registries,
            store.root_id == old(store).root_id,
            vs == review_views(incoming_reviews@),
            Some(vs) == incoming_view(*incoming),
            first_unresolved(*old(store), vs) is None,
            i <= vs.len(),
            peers@.len() == vs.len(),
            packages@.len() == vs.len(),
            forall|k: int| 0 <= k < vs.len() ==> resolves(*old(store), #[trigger] vs[k])
                && peers@[k] == peer_with_url(old(store).peers@, vs[k].peer.git_url@)->0
                && packages@[k] == package_with_key(*old(store), package_key(vs[k].package))->0,
            forall|k: int| 0 <= k < vs.len() ==> vs[k].comments.len() <= incoming.comments@.len(),
            vs.len() <= incoming.reviews@.len(),
            store.next_id >= old(store).next_id,
            store.next_id - old(store).next_id <= i * (incoming.comments@.len() + 1),
            forall|k: int| 0 <= k < i ==> pair_taken(store.reviews@, local_pair(*old(store), #[trigger] vs[k]).0,
                local_pair(*old(store), vs[k]).1),
            (forall|k: int| 0 <= k < i ==> pair_taken(old(store).reviews@,
                local_pair(*old(store), #[trigger] vs[k]).0, local_pair(*old(store), vs[k]).1))
                ==> store.reviews == old(store).reviews && store.comments == old(store).comments
                    && new_reviews@.len() == 0,
            rows_extend(*old(store), store.reviews@, review_views(new_reviews@),
                pending(*old(store), vs.subrange(0, i as int))),
            old(store).comments@.len() <= store.comments@.len(),
            store.comments@.subrange(0, old(store).comments@.len() as int) == old(store).comments@,
            forall|n: int, k: int| 0 <= n < new_reviews@.len() && 0 <= k < new_reviews@[n].comments@.len()
                ==> fresh_comment(*old(store), *store, #[trigger] new_reviews@[n].comments@[k]),
        decreases vs.len() - i,
    {
        let ghost head = *store;
        let review = &incoming_reviews[i];
        let peer = &peers[i];
        let package = &packages[i];
        let ghost v = vs[i as int];
        let ghost pend = pending(*old(store), vs.subrange(0, i as int));
        proof {
            assert(v == review@);
            assert(local_pair(*old(store), v) == (peer.id, package.id));
            lemma_budget(i as int, incoming.comments@.len() as int, review.comments@.len() as int,
                incoming.reviews@.len() as int);
            assert(vs.subrange(0, i + 1).drop_last() =~= vs.subrange(0, i as int));
            assert(vs.subrange(0, i + 1).last() == v);
            lemma_taken_split(*old(store), store.reviews@, review_views(new_reviews@), pend,
                peer.id, package.id);
        }
        if pair_index(store, peer.id, package.id, None).is_some() {
            assert(pending(*old(store), vs.subrange(0, i + 1)) == pend);
            i += 1;
            continue;
        }
        assert(pending(*old(store), vs.subrange(0, i + 1)) == pend.push(v));
        assert(!pair_taken(old(store).reviews@, peer.id, package.id));
        let ghost comments_before = store.comments@;
        let ghost rows_before = store.reviews@;
        let ghost start = store.next_id;
        let comments = insert_comment_copies(&review.comments, store)?;
        proof {
            assert forall|k: int| 0 <= k < ids_of(comments@).len() implies id_stored(store.comments@,
                #[trigger] ids_of(comments@)[k]) by {
                let j = comments_before.len() + k;
                assert(store.comments@[j] == comments@[k]);
                assert(store.comments@[j].id == ids_of(comments@)[k]);
            }
            assert(comments_stored(store.comments@, ids_of(comments@)));
            assert(peer_by_id(store.peers@, peer.id) is Some);
            assert(package_row_by_id(store.packages@, package.id) is Some);
            assert(refs_ok(*store, peer.id, package.id, ids_of(comments@)));
            assert forall|k: int| 0 <= k < comments_before.len() implies !ids_of(comments@).contains(
                #[trigger] comments_before[k].id) by {
                assert(comments_before[k].id < start);
                if ids_of(comments@).contains(comments_before[k].id) {
                    let m = choose|m: int| 0 <= m < ids_of(comments@).len() && ids_of(comments@)[m] == comments_before[k].id;
                    assert(comments@[m].id == start + m);
                }
            }
            assert forall|k: int| 0 <= k < comments@.len() implies ids_of(comments@).contains(#[trigger] comments@[k].id) by {
                assert(ids_of(comments@)[k] == comments@[k].id);
            }
            lemma_comments_of_tail(comments_before, comments@, ids_of(comments@));
        }
        let new_review = insert(&comments, peer, package, store)?;
        assert(store.comments@ == comments_before + comments@);
        let ghost news_before = review_views(new_reviews@);
        let ghost merged_before = new_reviews@;
        proof {
            assert(merged_from(*old(store), new_review@, v));
            assert forall|k: int| 0 <= k <= i implies pair_taken(store.reviews@,
                local_pair(*old(store), #[trigger] vs[k]).0, local_pair(*old(store), vs[k]).1) by {
                if k < i {
                    let j = choose|j: int| 0 <= j < rows_before.len()
                        && rows_before[j].peer_id == local_pair(*old(store), vs[k]).0
                        && rows_before[j].package_id == local_pair(*old(store), vs[k]).1;
                    assert(store.reviews@[j] == store.reviews@.drop_last()[j]);
                } else {
                    let j = store.reviews@.len() - 1;
                    assert(store.reviews@[j]@.peer_id == peer.id);
                }
            }
            assert(store.comments@.subrange(0, old(store).comments@.len() as int)
                =~= comments_before.subrange(0, old(store).comments@.len() as int));
        }
        new_reviews.push(new_review);
        proof {
            let news = review_views(new_reviews@);
            let m = old(store).reviews@.len();
            assert(news =~= news_before.push(new_review@));
            assert forall|k: int| 0 <= k < m implies #[trigger] store.reviews@[k] == old(store).reviews@[k] by {
                assert(store.reviews@[k] == store.reviews@.drop_last()[k]);
                assert(rows_before[k] == old(store).reviews@[k]);
            }
            assert forall|n: int| 0 <= n < news.len() implies merged_from(*old(store), #[trigger] news[n],
                pend.push(v)[n]) && store.reviews@[m + n]@ == row_view(news[n]) by {
                if n < news_before.len() {
                    assert(news[n] == news_before[n]);
                    assert(store.reviews@[m + n] == store.reviews@.drop_last()[m + n]);
                } else {
                    assert(store.reviews@[m + n] == store.reviews@.last());
                }
            }
            assert forall|n: int, k: int| 0 <= n < new_reviews@.len() && 0 <= k < new_reviews@[n].comments@.len()
                implies fresh_comment(*old(store), *store, #[trigger] new_reviews@[n].comments@[k]) by {
                let c = new_reviews@[n].comments@[k];
                if n < merged_before.len() {
                    assert(new_reviews@[n] == merged_before[n]);
                    assert(c == merged_before[n].comments@[k]);
                    assert(fresh_comment(*old(store), head, c));
                    let j = choose|j: int| 0 <= j < comments_before.len() && comments_before[j] == c;
                    assert(store.comments@[j] == c);
                } else {
                    assert(c == comments@[k]);
                    assert(store.comments@[comments_before.len() + k] == c);
                }
            }
        }
        i += 1;
    }
    proof {
        assert(vs.subrange(0, vs.len() as int) =~= vs);
        let res: Result<Vec<Review>, IndexError> = Ok(new_reviews);
        assert(res->Ok_0@ == new_reviews@);
        assert(rows_extend(*old(store), store.reviews@, review_views(res->Ok_0@), pending(*old(store), vs)));
        assert(forall|n: int, k: int| 0 <= n < res->Ok_0@.len() && 0 <= k < res->Ok_0@[n].comments@.len()
            ==> fresh_comment(*old(store), *store, #[trigger] res->Ok_0@[n].comments@[k]));
    }
    Ok(new_reviews)
}

/// A merge that stops at an unresolved review, leaving the store as it was,
/// ends as `merge_outcome` says.
pub proof fn lemma_unresolved_outcome(incoming: Store, s: Store, vs: Seq<ReviewView>, i: int, e: IndexError)
    requires
        Some(vs) == incoming_view(incoming),
        first_unresolved(s, vs) == Some(i),
        e == unresolved_error(s, vs[i]),
    ensures
        merge_outcome(incoming, s, s, Err(e)),
{
    assert(s.comments@.subrange(0, s.comments@.len() as int) =~= s.comments@);
}

/// The first unresolved review is the one at `i` where all before it resolve.
pub proof fn lemma_first_unresolved(s: Store, vs: Seq<ReviewView>, i: int)
    requires
        0 <= i < vs.len(),
        !resolves(s, vs[i]),
        forall|k: int| 0 <= k < i ==> resolves(s, #[trigger] vs[k]),
    ensures
        first_unresolved(s, vs) == Some(i),
{
    let k = choose|k: int| 0 <= k < vs.len() && !resolves(s, #[trigger] vs[k])
        && forall|j: int| 0 <= j < k ==> resolves(s, #[trigger] vs[j]);
    if k < i {
        assert(resolves(s, vs[k]));
    } else if k > i {
        assert(resolves(s, vs[i]));
    }
}

/// The comments of a table whose listed ids are exactly those of its tail
/// are that tail.
pub proof fn lemma_comments_of_tail(a: Seq<Comment>, b: Seq<Comment>, ids: Seq<ID>)
    requires
        forall|k: int| 0 <= k < a.len() ==> !ids.contains(#[trigger] a[k].id),
        forall|k: int| 0 <= k < b.len() ==> ids.contains(#[trigger] b[k].id),
    ensures
        comments_with_ids(a + b, ids) == b,
    decreases a.len() + b.len(),
{
    if b.len() == 0 {
        assert(a + b =~= a);
        if a.len() > 0 {
            assert forall|k: int| 0 <= k < a.drop_last().len() implies !ids.contains(#[trigger] a.drop_last()[k].id) by {
                assert(a.drop_last()[k] == a[k]);
            }
            lemma_comments_of_tail(a.drop_last(), b, ids);
            assert(a.drop_last() + b =~= a.drop_last());
            assert(!ids.contains(a[a.len() - 1].id));
        }
    } else {
        assert forall|k: int| 0 <= k < b.drop_last().len() implies ids.contains(#[trigger] b.drop_last()[k].id) by {
            assert(b.drop_last()[k] == b[k]);
        }
        lemma_comments_of_tail(a, b.drop_last(), ids);
        assert((a + b).drop_last() =~= a + b.drop_last());
        assert((a + b).last() == b.last());
        assert(ids.contains(b[b.len() - 1].id));
        assert(b.drop_last().push(b.last()) =~= b);
    }
}

/// Where the store reviews every incoming pair already, nothing is pending.
pub proof fn lemma_pending_empty(s: Store, vs: Seq<ReviewView>)
    requires
        forall|i: int| 0 <= i < vs.len() ==> pair_taken(s.reviews@, local_pair(s, #[trigger] vs[i]).0,
            local_pair(s, vs[i]).1),
    ensures
        pending(s, vs).len() == 0,
    decreases vs.len(),
{
    if vs.len() > 0 {
        assert forall|i: int| 0 <= i < vs.drop_last().len() implies pair_taken(s.reviews@,
            local_pair(s, #[trigger] vs.drop_last()[i]).0, local_pair(s, vs.drop_last()[i]).1) by {
            assert(vs.drop_last()[i] == vs[i]);
        }
        lemma_pending_empty(s, vs.drop_last());
        assert(pair_taken(s.reviews@, local_pair(s, vs[vs.len() - 1]).0, local_pair(s, vs[vs.len() - 1]).1));
    }
}

/// Merging the same incoming store a second time changes nothing: where a
/// merge of `incoming` into `s0` succeeded with store `s1`, a second merge of
/// `incoming` into `s1` succeeds, returns no review, and leaves the reviews
/// and comments of `s1` as they were.
#[verifier::rlimit(100)]
#[verifier::spinoff_prover]
pub proof fn lemma_merge_twice(
    incoming: Store,
    s0: Store,
    s1: Store,
    r1: Result<Vec<Review>, IndexError>,
    s2: Store,
    r2: Result<Vec<Review>, IndexError>,
)
    requires
        incoming.wf(),
        s0.wf(),
        s1.wf(),
        merge_outcome(incoming, s0, s1, r1),
        r1 is Ok,
        merge_outcome(incoming, s1, s2, r2),
    ensures
        r2 is Ok,
        r2->Ok_0@.len() == 0,
        s2.reviews == s1.reviews,
        s2.comments == s1.comments,
{
    let vs = incoming_view(incoming)->0;
    assert forall|id: ID| package_by_id(s1, id) == package_by_id(s0, id) by {}
    assert forall|i: int| 0 <= i < vs.len() implies resolves(s1, #[trigger] vs[i])
        && pair_taken(s1.reviews@, local_pair(s1, vs[i]).0, local_pair(s1, vs[i]).1) by {
        assert(resolves(s0, vs[i]));
        assert(has_package_key(s1, package_key(vs[i].package)) == has_package_key(s0, package_key(vs[i].package)));
        assert(package_with_key(s1, package_key(vs[i].package)) == package_with_key(s0, package_key(vs[i].package)));
        assert(local_pair(s1, vs[i]) == local_pair(s0, vs[i]));
    }
    if first_unresolved(s1, vs) is Some {
        let k = choose|k: int| 0 <= k < vs.len() && !resolves(s1, #[trigger] vs[k]);
        assert(resolves(s1, vs[k]));
    }
    lemma_pending_empty(s1, vs);
}

/// Each pending review is one of the incoming reviews.
pub proof fn lemma_pending_in(s: Store, vs: Seq<ReviewView>)
    ensures
        forall|n: int| 0 <= n < pending(s, vs).len() ==> vs.contains(#[trigger] pending(s, vs)[n]),
    decreases vs.len(),
{
    if vs.len() > 0 {
        lemma_pending_in(s, vs.drop_last());
        let p = pending(s, vs.drop_last());
        assert forall|n: int| 0 <= n < pending(s, vs).len() implies vs.contains(#[trigger] pending(s, vs)[n]) by {
            if n < p.len() {
                assert(pending(s, vs)[n] == p[n]);
                let j = choose|j: int| 0 <= j < vs.drop_last().len() && vs.drop_last()[j] == p[n];
                assert(vs[j] == p[n]);
            } else {
                assert(vs[vs.len() - 1] == pending(s, vs)[n]);
            }
        }
    }
}

/// A merged review refers to a peer that the local store already held, the
/// one with the transport URL of the incoming review it was made from, and
/// its stored row refers to that peer's local id: merge creates no peer,
/// whatever surrogate ids the incoming store used.
pub proof fn lemma_merge_reuses_local_peer(
    incoming: Store,
    s0: Store,
    s1: Store,
    r: Result<Vec<Review>, IndexError>,
    n: int,
)
    requires
        incoming.wf(),
        s0.wf(),
        merge_outcome(incoming, s0, s1, r),
        r is Ok,
        0 <= n < r->Ok_0@.len(),
    ensures
        s1.peers == s0.peers,
        incoming_view(incoming)->0.contains(pending(s0, incoming_view(incoming)->0)[n]),
        r->Ok_0@[n].peer.git_url@ == pending(s0, incoming_view(incoming)->0)[n].peer.git_url@,
        exists|k: int| 0 <= k < s0.peers@.len() && #[trigger] s0.peers@[k] == r->Ok_0@[n].peer,
        s1.reviews@[s0.reviews@.len() + n].peer_id == r->Ok_0@[n].peer.id,
{
    let vs = incoming_view(incoming)->0;
    let pend = pending(s0, vs);
    lemma_pending_in(s0, vs);
    let news = review_views(r->Ok_0@);
    assert(news[n] == r->Ok_0@[n]@);
    assert(merged_from(s0, news[n], pend[n]));
    let j = choose|j: int| 0 <= j < vs.len() && vs[j] == pend[n];
    assert(resolves(s0, vs[j]));
    let url = pend[n].peer.git_url@;
    let k = choose|k: int| 0 <= k < s0.peers@.len() && s0.peers@[k].git_url@ == url;
    assert(s0.peers@[k] == r->Ok_0@[n].peer);
}

} // verus!

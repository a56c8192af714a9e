use vstd::prelude::*;
use crate::entity::{Comment, ID, IndexError, Package, Peer, Review, ReviewRow, ReviewRowView, ReviewView, copy_ids};
use crate::store::{Store, package_by_id, package_row_by_id, peer_by_id, str_eq};

verus! {

/// A review filter: each field is either unset (any value) or set (equal value).
pub struct Fields {
    pub id: Option<ID>,
    pub peer_id: Option<ID>,
    pub package_id: Option<ID>,
    pub package_name: Option<String>,
    pub package_version: Option<String>,
    pub registry_host_name: Option<String>,
}

/// The filter with every field unset.
pub open spec fn any_fields() -> Fields {
    Fields {
        id: None,
        peer_id: None,
        package_id: None,
        package_name: None,
        package_version: None,
        registry_host_name: None,
    }
}

/// The filter on a review id alone.
pub open spec fn id_fields(id: ID) -> Fields {
    Fields {
        id: Some(id),
        peer_id: None,
        package_id: None,
        package_name: None,
        package_version: None,
        registry_host_name: None,
    }
}

impl Fields {
    /// The filter that matches every review.
    pub fn any() -> (r: Fields)
        ensures
            r == any_fields(),
    {
        Fields {
            id: None,
            peer_id: None,
            package_id: None,
            package_name: None,
            package_version: None,
            registry_host_name: None,
        }
    }

    /// The filter that matches the review with the given id.
    pub fn with_id(id: ID) -> (r: Fields)
        ensures
            r == id_fields(id),
    {
        Fields {
            id: Some(id),
            peer_id: None,
            package_id: None,
            package_name: None,
            package_version: None,
            registry_host_name: None,
        }
    }
}

impl Default for Fields {
    fn default() -> (r: Fields)
        ensures
            r.id is None && r.peer_id is None && r.package_id is None,
            r.package_name is None && r.package_version is None && r.registry_host_name is None,
    {
        Fields::any()
    }
}

/// An unset text filter accepts anything; a set one accepts its own value.
pub open spec fn text_accepts(f: Option<String>, v: Seq<char>) -> bool {
    f is None || f->0@ == v
}

/// An unset id filter accepts anything; a set one accepts its own value.
pub open spec fn id_accepts(f: Option<ID>, v: ID) -> bool {
    f is None || f->0 == v
}

/// The filter reads the review's package.
pub open spec fn reads_package(f: Fields) -> bool {
    f.package_name is Some || f.package_version is Some || f.registry_host_name is Some
}

/// The stored review row passes the filter.
pub open spec fn row_matches(s: Store, f: Fields, row: ReviewRow) -> bool {
    &&& id_accepts(f.id, row.id)
    &&& id_accepts(f.peer_id, row.peer_id)
    &&& id_accepts(f.package_id, row.package_id)
    &&& reads_package(f) ==> match package_by_id(s, row.package_id) {
        Some(p) => text_accepts(f.package_name, p.name@) && text_accepts(f.package_version, p.version@)
            && text_accepts(f.registry_host_name, p.registry.host_name@),
        None => false,
    }
}

/// The comments of the table whose ids are listed, in table order.
pub open spec fn comments_with_ids(cs: Seq<Comment>, ids: Seq<ID>) -> Seq<Comment>
    decreases cs.len(),
{
    if cs.len() == 0 {
        Seq::empty()
    } else {
        let rest = comments_with_ids(cs.drop_last(), ids);
        if ids.contains(cs.last().id) {
            rest.push(cs.last())
        } else {
            rest
        }
    }
}

/// The review that a stored row stands for, where its peer and package resolve.
pub open spec fn review_of(s: Store, row: ReviewRow) -> Option<ReviewView> {
    match (peer_by_id(s.peers@, row.peer_id), package_by_id(s, row.package_id)) {
        (Some(peer), Some(package)) => Some(
            ReviewView {
                id: row.id,
                peer,
                package,
                comments: comments_with_ids(s.comments@, row.comment_ids@),
            },
        ),
        _ => None,
    }
}

/// The reviews of the given rows that pass the filter, in row order; `None`
/// where one that passes does not resolve.
pub open spec fn selected(s: Store, f: Fields, rows: Seq<ReviewRow>) -> Option<Seq<ReviewView>>
    decreases rows.len(),
{
    if rows.len() == 0 {
        Some(Seq::empty())
    } else {
        match selected(s, f, rows.drop_last()) {
            None => None,
            Some(prev) => if row_matches(s, f, rows.last()) {
                match review_of(s, rows.last()) {
                    Some(v) => Some(prev.push(v)),
                    None => None,
                }
            } else {
                Some(prev)
            },
        }
    }
}

/// The rows that do not pass the filter, in order.
pub open spec fn unmatched(s: Store, f: Fields, rows: Seq<ReviewRow>) -> Seq<ReviewRow>
    decreases rows.len(),
{
    if rows.len() == 0 {
        Seq::empty()
    } else {
        let rest = unmatched(s, f, rows.drop_last());
        if row_matches(s, f, rows.last()) {
            rest
        } else {
            rest.push(rows.last())
        }
    }
}

/// The comments that survive an update of a review from `old_ids` to `new_ids`:
/// those not listed before, or still listed.
pub open spec fn surviving(cs: Seq<Comment>, old_ids: Seq<ID>, new_ids: Seq<ID>) -> Seq<Comment>
    decreases cs.len(),
{
    if cs.len() == 0 {
        Seq::empty()
    } else {
        let rest = surviving(cs.drop_last(), old_ids, new_ids);
        if old_ids.contains(cs.last().id) && !new_ids.contains(cs.last().id) {
            rest
        } else {
            rest.push(cs.last())
        }
    }
}

/// After a review's comment list changes from `old_ids` to `new_ids`, no
/// surviving comment is one that was listed before and no longer is, and
/// every comment outside that difference survives.
pub proof fn lemma_surviving(cs: Seq<Comment>, old_ids: Seq<ID>, new_ids: Seq<ID>)
    ensures
        forall|k: int| 0 <= k < surviving(cs, old_ids, new_ids).len() ==> !(old_ids.contains(
            #[trigger] surviving(cs, old_ids, new_ids)[k].id,
        ) && !new_ids.contains(surviving(cs, old_ids, new_ids)[k].id)),
        forall|k: int| 0 <= k < cs.len() && !(old_ids.contains(cs[k].id) && !new_ids.contains(cs[k].id))
            ==> surviving(cs, old_ids, new_ids).contains(#[trigger] cs[k]),
    decreases cs.len(),
{
    if cs.len() > 0 {
        lemma_surviving(cs.drop_last(), old_ids, new_ids);
        let rest = surviving(cs.drop_last(), old_ids, new_ids);
        assert forall|k: int| 0 <= k < cs.len() && !(old_ids.contains(cs[k].id) && !new_ids.contains(cs[k].id))
            implies surviving(cs, old_ids, new_ids).contains(#[trigger] cs[k]) by {
            if k < cs.len() - 1 {
                assert(cs.drop_last()[k] == cs[k]);
                let m = choose|m: int| 0 <= m < rest.len() && rest[m] == cs[k];
                assert(surviving(cs, old_ids, new_ids)[m] == cs[k]);
            } else {
                assert(surviving(cs, old_ids, new_ids).last() == cs[k]);
            }
        }
    }
}

/// The ids of the given comments, in order.
pub open spec fn ids_of(cs: Seq<Comment>) -> Seq<ID> {
    cs.map_values(|c: Comment| c.id)
}

/// Some stored row reviews this (peer, package) pair.
pub open spec fn pair_taken(rows: Seq<ReviewRow>, peer_id: ID, package_id: ID) -> bool {
    exists|j: int| 0 <= j < rows.len() && rows[j].peer_id == peer_id && rows[j].package_id == package_id
}

/// Once a prefix of the rows fails to resolve, so do the rows.
pub proof fn lemma_selected_none(s: Store, f: Fields, rows: Seq<ReviewRow>, k: int)
    requires
        0 <= k <= rows.len(),
        selected(s, f, rows.subrange(0, k)) is None,
    ensures
        selected(s, f, rows) is None,
    decreases rows.len() - k,
{
    if k == rows.len() {
        assert(rows.subrange(0, k) =~= rows);
    } else {
        assert(rows.subrange(0, k + 1).drop_last() =~= rows.subrange(0, k));
        lemma_selected_none(s, f, rows, k + 1);
    }
}

/// The list holds the id.
pub fn ids_contain(ids: &Vec<ID>, id: ID) -> (r: bool)
    ensures
        r == ids@.contains(id),
{
    let mut i: usize = 0;
    while i < ids.len()
        invariant
            i <= ids@.len(),
            forall|j: int| 0 <= j < i ==> ids@[j] != id,
        decreases ids@.len() - i,
    {
        if ids[i] == id {
            assert(ids@[i as int] == id);
            return true;
        }
        i += 1;
    }
    false
}

/// The ids of the given comments.
pub fn comment_ids(cs: &Vec<Comment>) -> (r: Vec<ID>)
    ensures
        r@ == ids_of(cs@),
{
    let mut r: Vec<ID> = Vec::new();
    let mut i: usize = 0;
    while i < cs.len()
        invariant
            i <= cs@.len(),
            r@ == ids_of(cs@.subrange(0, i as int)),
        decreases cs@.len() - i,
    {
        r.push(cs[i].id);
        i += 1;
        assert(ids_of(cs@.subrange(0, i as int)) =~= ids_of(cs@.subrange(0, i - 1)).push(cs@[i - 1].id));
    }
    assert(cs@.subrange(0, cs@.len() as int) =~= cs@);
    r
}

/// The comments of the store whose ids are listed, in table order.
pub fn get_comments(store: &Store, ids: &Vec<ID>) -> (r: Vec<Comment>)
    ensures
        r@ == comments_with_ids(store.comments@, ids@),
{
    let mut r: Vec<Comment> = Vec::new();
    let mut i: usize = 0;
    while i < store.comments.len()
        invariant
            i <= store.comments@.len(),
            r@ == comments_with_ids(store.comments@.subrange(0, i as int), ids@),
        decreases store.comments@.len() - i,
    {
        let c = &store.comments[i];
        assert(store.comments@.subrange(0, i + 1).drop_last() =~= store.comments@.subrange(0, i as int));
        if ids_contain(ids, c.id) {
            r.push(c.clone());
        }
        i += 1;
    }
    assert(store.comments@.subrange(0, store.comments@.len() as int) =~= store.comments@);
    r
}

/// Whether the stored row passes the filter.
pub fn matches(store: &Store, fields: &Fields, row: &ReviewRow) -> (r: bool)
    requires
        store.wf(),
    ensures
        r == row_matches(*store, *fields, *row),
{
    if let Some(id) = fields.id {
        if id != row.id {
            return false;
        }
    }
    if let Some(id) = fields.peer_id {
        if id != row.peer_id {
            return false;
        }
    }
    if let Some(id) = fields.package_id {
        if id != row.package_id {
            return false;
        }
    }
    if fields.package_name.is_none() && fields.package_version.is_none() && fields.registry_host_name.is_none() {
        return true;
    }
    let package = match store.get_package(row.package_id) {
        Some(p) => p,
        None => return false,
    };
    if let Some(name) = &fields.package_name {
        if !str_eq(name.as_str(), package.name.as_str()) {
            return false;
        }
    }
    if let Some(version) = &fields.package_version {
        if !str_eq(version.as_str(), package.version.as_str()) {
            return false;
        }
    }
    if let Some(host) = &fields.registry_host_name {
        if !str_eq(host.as_str(), package.registry.host_name.as_str()) {
            return false;
        }
    }
    true
}

/// The reviews whose rows pass the filter, in row order, each with its peer,
/// package and comments resolved; `InvariantViolation` where the peer or
/// package of such a row cannot be resolved.
pub fn get(fields: &Fields, store: &Store) -> (r: Result<Vec<Review>, IndexError>)
    requires
        store.wf(),
    ensures
        match selected(*store, *fields, store.reviews@) {
            Some(v) => r is Ok && r->Ok_0@.map_values(|x: Review| x@) == v,
            None => r == Err::<Vec<Review>, IndexError>(IndexError::InvariantViolation),
        },
{
    let mut out: Vec<Review> = Vec::new();
    let mut i: usize = 0;
    while i < store.reviews.len()
        invariant
            store.wf(),
            i <= store.reviews@.len(),
            selected(*store, *fields, store.reviews@.subrange(0, i as int))
                == Some(out@.map_values(|x: Review| x@)),
        decreases store.reviews@.len() - i,
    {
        let row = &store.reviews[i];
        assert(store.reviews@.subrange(0, i + 1).drop_last() =~= store.reviews@.subrange(0, i as int));
        if matches(store, fields, row) {
            let peer = match store.peer_index_by_id(row.peer_id) {
                Some(k) => store.peers[k].clone(),
                None => {
                    proof {
                        lemma_selected_none(*store, *fields, store.reviews@, i + 1);
                    }
                    return Err(IndexError::InvariantViolation);
                },
            };
            let package = match store.get_package(row.package_id) {
                Some(p) => p,
                None => {
                    proof {
                        lemma_selected_none(*store, *fields, store.reviews@, i + 1);
                    }
                    return Err(IndexError::InvariantViolation);
                },
            };
            let comments = get_comments(store, &row.comment_ids);
            let review = Review { id: row.id, peer, package, comments };
            proof {
                let prev = out@.map_values(|x: Review| x@);
                assert(out@.push(review).map_values(|x: Review| x@) =~= prev.push(review@));
            }
            out.push(review);
        }
        i += 1;
    }
    assert(store.reviews@.subrange(0, store.reviews@.len() as int) =~= store.reviews@);
    Ok(out)
}

/// Position of the stored review with the given id.
pub fn review_index_by_id(store: &Store, id: ID) -> (r: Option<usize>)
    requires
        store.wf(),
    ensures
        r matches Some(j) ==> j < store.reviews@.len() && store.reviews@[j as int].id == id
            && forall|k: int| 0 <= k < store.reviews@.len() && store.reviews@[k].id == id ==> k == j,
        r is None ==> forall|k: int| 0 <= k < store.reviews@.len() ==> store.reviews@[k].id != id,
{
    let mut j: usize = 0;
    while j < store.reviews.len()
        invariant
            store.wf(),
            j <= store.reviews@.len(),
            forall|k: int| 0 <= k < j ==> store.reviews@[k].id != id,
        decreases store.reviews@.len() - j,
    {
        if store.reviews[j].id == id {
            return Some(j);
        }
        j += 1;
    }
    None
}

/// Every listed id is the id of a stored comment.
pub open spec fn comments_stored(cs: Seq<Comment>, ids: Seq<ID>) -> bool {
    forall|k: int| 0 <= k < ids.len() ==> id_stored(cs, #[trigger] ids[k])
}

/// Some comment of the table has the id.
pub open spec fn id_stored(cs: Seq<Comment>, id: ID) -> bool {
    exists|j: int| 0 <= j < cs.len() && cs[j].id == id
}

/// The peer, the package and each listed comment of a review are stored.
pub open spec fn refs_ok(s: Store, peer_id: ID, package_id: ID, ids: Seq<ID>) -> bool {
    &&& peer_by_id(s.peers@, peer_id) is Some
    &&& package_row_by_id(s.packages@, package_id) is Some
    &&& comments_stored(s.comments@, ids)
}

/// Whether a stored comment has the id.
fn comment_stored(store: &Store, id: ID) -> (r: bool)
    ensures
        r == id_stored(store.comments@, id),
{
    let mut j: usize = 0;
    while j < store.comments.len()
        invariant
            j <= store.comments@.len(),
            forall|m: int| 0 <= m < j ==> store.comments@[m].id != id,
        decreases store.comments@.len() - j,
    {
        if store.comments[j].id == id {
            return true;
        }
        j += 1;
    }
    false
}

/// Whether every listed id is the id of a stored comment.
pub fn all_comments_stored(store: &Store, ids: &Vec<ID>) -> (r: bool)
    ensures
        r == comments_stored(store.comments@, ids@),
{
    let mut k: usize = 0;
    while k < ids.len()
        invariant
            k <= ids@.len(),
            comments_stored(store.comments@, ids@.subrange(0, k as int)),
        decreases ids@.len() - k,
    {
        if !comment_stored(store, ids[k]) {
            assert(ids@[k as int] == ids@[k as int]);
            return false;
        }
        proof {
            assert forall|m: int| 0 <= m < k + 1 implies id_stored(store.comments@,
                #[trigger] ids@.subrange(0, k + 1)[m]) by {
                if m < k {
                    assert(ids@.subrange(0, k + 1)[m] == ids@.subrange(0, k as int)[m]);
                }
            }
        }
        k += 1;
    }
    assert(ids@.subrange(0, ids@.len() as int) =~= ids@);
    true
}

/// Position of a stored review of the pair other than the one at `except`.
pub fn pair_index(store: &Store, peer_id: ID, package_id: ID, except: Option<usize>) -> (r: Option<usize>)
    ensures
        r matches Some(k) ==> k < store.reviews@.len() && except != Some(k)
            && store.reviews@[k as int].peer_id == peer_id && store.reviews@[k as int].package_id == package_id,
        r is None ==> forall|k: int| 0 <= k < store.reviews@.len() && (except is None || except->0 != k) ==> !(
            store.reviews@[k].peer_id == peer_id && store.reviews@[k].package_id == package_id),
{
    let mut k: usize = 0;
    while k < store.reviews.len()
        invariant
            k <= store.reviews@.len(),
            forall|m: int| 0 <= m < k && (except is None || except->0 != m) ==> !(store.reviews@[m].peer_id == peer_id
                && store.reviews@[m].package_id == package_id),
        decreases store.reviews@.len() - k,
    {
        if except != Some(k) && store.reviews[k].peer_id == peer_id && store.reviews[k].package_id == package_id {
            return Some(k);
        }
        k += 1;
    }
    None
}

/// Stores a review of `package` by `peer` listing the given comments, which
/// must already be stored; the review returned carries them as stored, in
/// table order, as a read gives them back. Fails with `ReferenceViolation`
/// where the peer, the package or a listed comment is not stored, and with
/// `ConstraintViolation` where the pair is already reviewed.
pub fn insert(comments: &Vec<Comment>, peer: &Peer, package: &Package, store: &mut Store) -> (r: Result<
    Review,
    IndexError,
>)
    requires
        old(store).wf(),
    ensures
        final(store).wf(),
        !refs_ok(*old(store), peer.id, package.id, ids_of(comments@))
            ==> r == Err::<Review, IndexError>(IndexError::ReferenceViolation),
        refs_ok(*old(store), peer.id, package.id, ids_of(comments@))
            && pair_taken(old(store).reviews@, peer.id, package.id)
            ==> r == Err::<Review, IndexError>(IndexError::ConstraintViolation),
        refs_ok(*old(store), peer.id, package.id, ids_of(comments@))
            && !pair_taken(old(store).reviews@, peer.id, package.id) && old(store).next_id < u64::MAX
            ==> r is Ok,
        r matches Err(e) ==> e == IndexError::ReferenceViolation || e == IndexError::ConstraintViolation
            || e == IndexError::IdsExhausted,
        refs_ok(*old(store), peer.id, package.id, ids_of(comments@))
            && !pair_taken(old(store).reviews@, peer.id, package.id) && old(store).next_id == u64::MAX
            ==> r == Err::<Review, IndexError>(IndexError::IdsExhausted),
        r is Err ==> final(store).reviews == old(store).reviews,
        r is Ok ==> r->Ok_0@ == (ReviewView {
            id: old(store).next_id,
            peer: *peer,
            package: *package,
            comments: comments_with_ids(old(store).comments@, ids_of(comments@)),
        })
            && final(store).reviews@.len() == old(store).reviews@.len() + 1
            && final(store).reviews@.drop_last() == old(store).reviews@
            && final(store).reviews@.last()@ == (ReviewRowView {
                id: old(store).next_id,
                peer_id: peer.id,
                package_id: package.id,
                comment_ids: ids_of(comments@),
            })
            && final(store).next_id == old(store).next_id + 1,
        final(store).registries == old(store).registries,
        final(store).packages == old(store).packages,
        final(store).peers == old(store).peers,
        final(store).comments == old(store).comments,
        final(store).root_id == old(store).root_id,
        final(store).next_id >= old(store).next_id,
{
    let ids = comment_ids(comments);
    if store.peer_index_by_id(peer.id).is_none() || store.package_index_by_id(package.id).is_none()
        || !all_comments_stored(store, &ids) {
        return Err(IndexError::ReferenceViolation);
    }
    if pair_index(store, peer.id, package.id, None).is_some() {
        return Err(IndexError::ConstraintViolation);
    }
    let id = store.take_id()?;
    let row = ReviewRow { id, peer_id: peer.id, package_id: package.id, comment_ids: comment_ids(comments) };
    store.reviews.push(row);
    assert(store.reviews@.drop_last() =~= old(store).reviews@);
    let stored = get_comments(store, &ids);
    Ok(Review { id, peer: peer.clone(), package: package.clone(), comments: stored })
}

/// Deletes, from the store's comments, those listed in `current_ids` and not
/// in `new_ids`.
pub fn remove_stale_comments(current_ids: &Vec<ID>, new_ids: &Vec<ID>, store: &mut Store)
    requires
        old(store).wf(),
    ensures
        final(store).wf(),
        final(store).comments@ == surviving(old(store).comments@, current_ids@, new_ids@),
        final(store).registries == old(store).registries,
        final(store).packages == old(store).packages,
        final(store).peers == old(store).peers,
        final(store).reviews == old(store).reviews,
        final(store).root_id == old(store).root_id,
        final(store).next_id == old(store).next_id,
{
    let mut kept: Vec<Comment> = Vec::new();
    let mut i: usize = 0;
    while i < store.comments.len()
        invariant
            store.wf(),
            i <= store.comments@.len(),
            kept@ == surviving(store.comments@.subrange(0, i as int), current_ids@, new_ids@),
            forall|k: int| 0 <= k < kept@.len() ==> kept@[k].id < store.next_id,
            forall|a: int, b: int| 0 <= a < b < kept@.len() ==> kept@[a].id < kept@[b].id,
            forall|k: int, m: int| 0 <= k < kept@.len() && i <= m < store.comments@.len()
                ==> kept@[k].id < store.comments@[m].id,
        decreases store.comments@.len() - i,
    {
        let c = &store.comments[i];
        assert(store.comments@.subrange(0, i + 1).drop_last() =~= store.comments@.subrange(0, i as int));
        if !(ids_contain(current_ids, c.id) && !ids_contain(new_ids, c.id)) {
            kept.push(c.clone());
        }
        i += 1;
    }
    assert(store.comments@.subrange(0, store.comments@.len() as int) =~= store.comments@);
    store.comments = kept;
}

/// Rewrites the stored review with `review.id`: its peer, package and comment
/// list become those of `review`, and the comments that it listed before and
/// no longer lists are deleted. The new comments must already be stored.
/// Fails with `NotFound` where no review has that id, with
/// `ReferenceViolation` where the peer, the package or a listed comment is
/// not stored, and with
/// `ConstraintViolation` where another review has the same pair; the store
/// is then unchanged.
pub fn update(review: &Review, store: &mut Store) -> (r: Result<(), IndexError>)
    requires
        old(store).wf(),
    ensures
        final(store).wf(),
        (forall|j: int| 0 <= j < old(store).reviews@.len() ==> old(store).reviews@[j].id != review.id)
            ==> r == Err::<(), IndexError>(IndexError::NotFound),
        forall|j: int| 0 <= j < old(store).reviews@.len() && old(store).reviews@[j].id == review.id ==> {
            if !refs_ok(*old(store), review.peer.id, review.package.id, ids_of(review.comments@)) {
                r == Err::<(), IndexError>(IndexError::ReferenceViolation)
            } else if exists|k: int| 0 <= k < old(store).reviews@.len() && k != j
                && old(store).reviews@[k].peer_id == review.peer.id
                && old(store).reviews@[k].package_id == review.package.id {
                r == Err::<(), IndexError>(IndexError::ConstraintViolation)
            } else {
                &&& r is Ok
                &&& final(store).reviews@.len() == old(store).reviews@.len()
                &&& forall|k: int| 0 <= k < old(store).reviews@.len() && k != j
                    ==> final(store).reviews@[k] == old(store).reviews@[k]
                &&& final(store).reviews@[j]@ == (ReviewRowView {
                    id: review.id,
                    peer_id: review.peer.id,
                    package_id: review.package.id,
                    comment_ids: ids_of(review.comments@),
                })
                &&& final(store).comments@ == surviving(
                    old(store).comments@,
                    old(store).reviews@[j].comment_ids@,
                    ids_of(review.comments@),
                )
            }
        },
        r is Err ==> *final(store) == *old(store),
        final(store).registries == old(store).registries,
        final(store).packages == old(store).packages,
        final(store).peers == old(store).peers,
        final(store).root_id == old(store).root_id,
        final(store).next_id == old(store).next_id,
{
    let j = match review_index_by_id(store, review.id) {
        Some(j) => j,
        None => return Err(IndexError::NotFound),
    };
    assert(forall|k: int| 0 <= k < store.reviews@.len() && store.reviews@[k].id == review.id ==> k == j);
    let listed = comment_ids(&review.comments);
    if store.peer_index_by_id(review.peer.id).is_none() || store.package_index_by_id(review.package.id).is_none()
        || !all_comments_stored(store, &listed) {
        return Err(IndexError::ReferenceViolation);
    }
    if pair_index(store, review.peer.id, review.package.id, Some(j)).is_some() {
        return Err(IndexError::ConstraintViolation);
    }
    let current_ids = copy_ids(&store.reviews[j].comment_ids);
    let new_ids = comment_ids(&review.comments);
    remove_stale_comments(&current_ids, &new_ids, store);
    let row = ReviewRow { id: review.id, peer_id: review.peer.id, package_id: review.package.id, comment_ids: new_ids };
    let ghost before = store.reviews@;
    store.reviews.set(j, row);
    proof {
        assert(before == old(store).reviews@);
        assert forall|a: int, b: int| 0 <= a < b < store.reviews@.len() implies store.reviews@[a].id
            != store.reviews@[b].id && (store.reviews@[a].peer_id, store.reviews@[a].package_id)
            != (store.reviews@[b].peer_id, store.reviews@[b].package_id) by {
            if a == j as int {
                assert(before[b].id != review.id);
            } else if b == j as int {
                assert(before[a].id != review.id);
            }
        }
    }
    Ok(())
}

/// Deletes the stored reviews that pass the filter; their comments stay.
pub fn remove(fields: &Fields, store: &mut Store)
    requires
        old(store).wf(),
    ensures
        final(store).wf(),
        final(store).reviews@ == unmatched(*old(store), *fields, old(store).reviews@),
        final(store).registries == old(store).registries,
        final(store).packages == old(store).packages,
        final(store).peers == old(store).peers,
        final(store).comments == old(store).comments,
        final(store).root_id == old(store).root_id,
        final(store).next_id == old(store).next_id,
{
    let ghost s0 = *store;
    let n0: usize = store.reviews.len();
    let mut i: usize = 0;
    let mut j: usize = 0;
    while i < store.reviews.len()
        invariant
            store.wf(),
            store.registries == s0.registries,
            store.packages == s0.packages,
            store.peers == s0.peers,
            store.comments == s0.comments,
            store.root_id == s0.root_id,
            store.next_id == s0.next_id,
            i <= j <= s0.reviews@.len(),
            i == unmatched(s0, *fields, s0.reviews@.subrange(0, j as int)).len(),
            store.reviews@.len() == i + (s0.reviews@.len() - j),
            s0.reviews@.len() == n0,
            store.reviews@ == unmatched(s0, *fields, s0.reviews@.subrange(0, j as int))
                + s0.reviews@.subrange(j as int, s0.reviews@.len() as int),
        decreases s0.reviews@.len() - j,
    {
        assert(store.reviews@.len() == i + (s0.reviews@.len() - j));
        let ghost before = store.reviews@;
        assert(s0.reviews@.subrange(0, j + 1).drop_last() =~= s0.reviews@.subrange(0, j as int));
        assert(store.reviews@[i as int] == s0.reviews@[j as int]);
        if matches(store, fields, &store.reviews[i]) {
            store.reviews.remove(i);
            proof {
                assert forall|a: int, b: int| 0 <= a < b < store.reviews@.len() implies store.reviews@[a].id
                    != store.reviews@[b].id && (store.reviews@[a].peer_id, store.reviews@[a].package_id)
                    != (store.reviews@[b].peer_id, store.reviews@[b].package_id) by {
                    let a0 = if a < i { a } else { a + 1 };
                    let b0 = if b < i { b } else { b + 1 };
                    assert(store.reviews@[a] == before[a0]);
                    assert(store.reviews@[b] == before[b0]);
                }
            }
        } else {
            i += 1;
        }
        j += 1;
        assert(store.reviews@ =~= unmatched(s0, *fields, s0.reviews@.subrange(0, j as int))
            + s0.reviews@.subrange(j as int, s0.reviews@.len() as int));
    }
    assert(s0.reviews@.subrange(0, s0.reviews@.len() as int) =~= s0.reviews@);
    assert(store.reviews@ =~= unmatched(s0, *fields, s0.reviews@));
}

/// No row of a prefix that lacks the id passes the id filter.
proof fn lemma_selected_no_id(s: Store, rows: Seq<ReviewRow>, id: ID)
    requires
        forall|j: int| 0 <= j < rows.len() ==> #[trigger] rows[j].id != id,
    ensures
        selected(s, id_fields(id), rows) == Some(Seq::<ReviewView>::empty()),
    decreases rows.len(),
{
    if rows.len() > 0 {
        assert forall|j: int| 0 <= j < rows.drop_last().len() implies #[trigger] rows.drop_last()[j].id != id by {
            assert(rows.drop_last()[j] == rows[j]);
        }
        lemma_selected_no_id(s, rows.drop_last(), id);
        assert(rows.last().id != id);
    }
}

/// Reading by id the review that was stored last gives exactly that review,
/// with the stored comments that its row lists: so a review fetched right
/// after its insert carries the comments it was inserted with, where those
/// are stored comments.
pub proof fn lemma_get_inserted(s: Store)
    requires
        s.wf(),
        s.reviews@.len() > 0,
        review_of(s, s.reviews@.last()) is Some,
    ensures
        selected(s, id_fields(s.reviews@.last().id), s.reviews@)
            == Some(seq![review_of(s, s.reviews@.last())->0]),
        review_of(s, s.reviews@.last())->0.comments
            == comments_with_ids(s.comments@, s.reviews@.last().comment_ids@),
{
    let rows = s.reviews@;
    let id = rows.last().id;
    assert forall|j: int| 0 <= j < rows.drop_last().len() implies #[trigger] rows.drop_last()[j].id != id by {
        assert(rows.drop_last()[j] == rows[j]);
        assert(rows[j].id < rows[rows.len() - 1].id);
    }
    lemma_selected_no_id(s, rows.drop_last(), id);
    assert(Seq::<ReviewView>::empty().push(review_of(s, rows.last())->0) =~= seq![review_of(s, rows.last())->0]);
}

} // verus!

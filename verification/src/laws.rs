//! The stated laws of the store, proved from the operation contracts:
//! touch propagation, cascade deletion, and the export / import round
//! trip.

use vstd::prelude::*;

use crate::models::FileCard;
use crate::models::FileCardRow;
use crate::models::ImportData;
use crate::models::ImportResult;
use crate::models::Item;
use crate::models::ExportData;
use crate::models::ProjectRow;
use crate::store::JsonStore;
use crate::store::ProjectData;
use crate::store::card_from_row;
use crate::store::card_row_of;
use crate::store::cards_for;
use crate::store::cards_matched;
use crate::store::clean_envelope;
use crate::store::concat_cards;
use crate::store::concat_items;
use crate::store::data_cards;
use crate::store::docs_have;
use crate::store::docs_unique;
use crate::store::imported_doc;
use crate::store::items_for;
use crate::store::items_matched;
use crate::store::row_of;
use crate::store::rows_have;

verus! {

/// Touch propagation: every mutation of a project's children (the
/// create, update, delete and reorder operations above) stamps the
/// owning project's `updated_at` with the mutation time, as their
/// contracts state.  Under a clock whose readings never decrease, the
/// stamp therefore never decreases: a project stamped at `now` is at
/// least as new as any earlier stamp.
pub proof fn lemma_touch_propagation(post: JsonStore, i: int, now: Seq<char>, prev: Seq<char>)
    requires
        0 <= i < post.projects@.len(),
        post.projects@[i].updated_at@ == now,
        crate::order::lex_le(prev, now),
    ensures
        crate::order::lex_le(prev, post.projects@[i].updated_at@),
{
}

/// Cascade delete: after a project is deleted, its document is gone,
/// so no loaded item, todo or file card names it as parent; reads of
/// its children yield empty results.
pub proof fn lemma_cascade_delete(post: JsonStore, id: Seq<char>)
    requires
        post.wf(),
        !post.has_doc(id),
    ensures
        forall|i: int, k: int|
            0 <= i < post.projects@.len() && 0 <= k < post.projects@[i].items@.len() ==> (
            #[trigger] post.projects@[i].items@[k]).project_id@ != id,
        forall|i: int, k: int|
            0 <= i < post.projects@.len() && 0 <= k < post.projects@[i].todos@.len() ==> (
            #[trigger] post.projects@[i].todos@[k]).project_id@ != id,
        forall|i: int, k: int|
            0 <= i < post.projects@.len() && 0 <= k < post.projects@[i].file_cards@.len() ==> (
            #[trigger] post.projects@[i].file_cards@[k]).project_id@ != id,
{
    assert forall|i: int, k: int|
        0 <= i < post.projects@.len() && 0 <= k < post.projects@[i].items@.len() implies (
    #[trigger] post.projects@[i].items@[k]).project_id@ != id by {
        assert(post.projects@[i].wf());
        assert(post.projects@[i].items@[k].project_id@ == post.projects@[i].id@);
        if post.projects@[i].id@ == id {
            assert(docs_have(post.projects@, post.projects@[i].id@));
        }
    };
    assert forall|i: int, k: int|
        0 <= i < post.projects@.len() && 0 <= k < post.projects@[i].todos@.len() implies (
    #[trigger] post.projects@[i].todos@[k]).project_id@ != id by {
        assert(post.projects@[i].wf());
        assert(post.projects@[i].todos@[k].project_id@ == post.projects@[i].id@);
        if post.projects@[i].id@ == id {
            assert(docs_have(post.projects@, post.projects@[i].id@));
        }
    };
    assert forall|i: int, k: int|
        0 <= i < post.projects@.len() && 0 <= k < post.projects@[i].file_cards@.len() implies (
    #[trigger] post.projects@[i].file_cards@[k]).project_id@ != id by {
        assert(post.projects@[i].wf());
        assert(post.projects@[i].file_cards@[k].project_id@ == post.projects@[i].id@);
        if post.projects@[i].id@ == id {
            assert(docs_have(post.projects@, post.projects@[i].id@));
        }
    };
}


/// `items_for` looks only at the first `n` entries.
proof fn lemma_items_for_prefix(s1: Seq<Item>, s2: Seq<Item>, pid: Seq<char>, n: int)
    requires
        0 <= n <= s1.len(),
        n <= s2.len(),
        forall|k: int| 0 <= k < n ==> s1[k] == s2[k],
    ensures
        items_for(s1, pid, n) == items_for(s2, pid, n),
    decreases n,
{
    if n > 0 {
        lemma_items_for_prefix(s1, s2, pid, n - 1);
    }
}

/// Selecting from a concatenation selects from each part.
proof fn lemma_items_for_append(a: Seq<Item>, b: Seq<Item>, pid: Seq<char>, j: int)
    requires
        0 <= j <= b.len(),
    ensures
        items_for(a + b, pid, a.len() + j) =~= items_for(a, pid, a.len() as int) + items_for(
            b,
            pid,
            j,
        ),
    decreases j,
{
    if j == 0 {
        lemma_items_for_prefix(a + b, a, pid, a.len() as int);
        assert(items_for(b, pid, 0) =~= Seq::<Item>::empty());
        assert(items_for(a, pid, a.len() as int) + Seq::<Item>::empty() =~= items_for(
            a,
            pid,
            a.len() as int,
        ));
    } else {
        lemma_items_for_append(a, b, pid, j - 1);
        assert((a + b)[a.len() + j - 1] == b[j - 1]);
    }
}

/// Selecting a parent that owns everything yields everything.
proof fn lemma_items_for_all(s: Seq<Item>, pid: Seq<char>, n: int)
    requires
        0 <= n <= s.len(),
        forall|k: int| 0 <= k < n ==> (#[trigger] s[k]).project_id@ == pid,
    ensures
        items_for(s, pid, n) =~= s.subrange(0, n),
    decreases n,
{
    if n > 0 {
        lemma_items_for_all(s, pid, n - 1);
    }
}

/// Selecting a parent that owns nothing yields nothing.
proof fn lemma_items_for_none(s: Seq<Item>, pid: Seq<char>, n: int)
    requires
        0 <= n <= s.len(),
        forall|k: int| 0 <= k < n ==> (#[trigger] s[k]).project_id@ != pid,
    ensures
        items_for(s, pid, n) =~= Seq::<Item>::empty(),
    decreases n,
{
    if n > 0 {
        lemma_items_for_none(s, pid, n - 1);
    }
}

/// No item of the first `n` well-formed documents names `id` as its
/// parent when no such document is the project `id`.
proof fn lemma_concat_items_none(ps: Seq<ProjectData>, id: Seq<char>, n: int)
    requires
        0 <= n <= ps.len(),
        forall|i: int| 0 <= i < ps.len() ==> (#[trigger] ps[i]).wf(),
        forall|i: int| 0 <= i < n ==> (#[trigger] ps[i]).id@ != id,
    ensures
        items_for(concat_items(ps, n), id, concat_items(ps, n).len() as int) =~= Seq::<
            Item,
        >::empty(),
    decreases n,
{
    if n > 0 {
        lemma_concat_items_none(ps, id, n - 1);
        let a = concat_items(ps, n - 1);
        let b = ps[n - 1].items@;
        lemma_items_for_append(a, b, id, b.len() as int);
        assert forall|k: int| 0 <= k < b.len() implies (#[trigger] b[k]).project_id@ != id by {
            assert(b[k].project_id@ == ps[n - 1].id@);
        };
        lemma_items_for_none(b, id, b.len() as int);
    }
}

/// Selecting project `t`'s id out of the concatenated items of `n`
/// well-formed documents with unique ids gives back exactly project
/// `t`'s items.
proof fn lemma_concat_items_roundtrip(ps: Seq<ProjectData>, t: int, n: int)
    requires
        docs_unique(ps),
        forall|i: int| 0 <= i < ps.len() ==> (#[trigger] ps[i]).wf(),
        0 <= t < n <= ps.len(),
    ensures
        items_for(concat_items(ps, n), ps[t].id@, concat_items(ps, n).len() as int)
            =~= ps[t].items@,
    decreases n,
{
    let id = ps[t].id@;
    if n == t + 1 {
        let a = concat_items(ps, t);
        let b = ps[t].items@;
        lemma_items_for_append(a, b, id, b.len() as int);
        assert forall|i: int| 0 <= i < t implies (#[trigger] ps[i]).id@ != id by {
            assert(ps[i].id@ != ps[t].id@);
        };
        lemma_concat_items_none(ps, id, t);
        assert forall|k: int| 0 <= k < b.len() implies (#[trigger] b[k]).project_id@ == id by {
            assert(b[k].project_id@ == ps[t].id@);
        };
        lemma_items_for_all(b, id, b.len() as int);
        assert(b.subrange(0, b.len() as int) =~= b);
    } else {
        lemma_concat_items_roundtrip(ps, t, n - 1);
        let a = concat_items(ps, n - 1);
        let b = ps[n - 1].items@;
        lemma_items_for_append(a, b, id, b.len() as int);
        assert forall|k: int| 0 <= k < b.len() implies (#[trigger] b[k]).project_id@ != id by {
            assert(b[k].project_id@ == ps[n - 1].id@);
            assert(ps[t].id@ != ps[n - 1].id@);
        };
        lemma_items_for_none(b, id, b.len() as int);
    }
}

/// Every item of the concatenated children of well-formed documents
/// has its own document's project id as parent, so each one counts as
/// matched against rows that mirror those documents.
proof fn lemma_concat_items_matched(
    ps: Seq<ProjectData>,
    rows: Seq<ProjectRow>,
    items: Seq<Item>,
    n: int,
)
    requires
        forall|i: int| 0 <= i < ps.len() ==> (#[trigger] ps[i]).wf(),
        rows.len() == ps.len(),
        forall|i: int| 0 <= i < ps.len() ==> row_of(rows[i], #[trigger] ps[i]),
        items == concat_items(ps, ps.len() as int),
        0 <= n <= items.len(),
        forall|k: int|
            0 <= k < items.len() ==> exists|u: int|
                0 <= u < ps.len() && (#[trigger] items[k]).project_id@ == ps[u].id@,
    ensures
        items_matched(items, rows, n) == n,
    decreases n,
{
    if n > 0 {
        lemma_concat_items_matched(ps, rows, items, n - 1);
        let u = choose|u: int|
            0 <= u < ps.len() && items[n - 1].project_id@ == ps[u].id@;
        assert(rows[u].id@ == ps[u].id@);
        assert(rows_have(rows, items[n - 1].project_id@));
    }
}

/// Each position of the concatenated items of the first `n` documents
/// belongs to one of those documents.
proof fn lemma_concat_items_parent(ps: Seq<ProjectData>, n: int)
    requires
        0 <= n <= ps.len(),
        forall|i: int| 0 <= i < ps.len() ==> (#[trigger] ps[i]).wf(),
    ensures
        forall|k: int|
            0 <= k < concat_items(ps, n).len() ==> exists|u: int|
                0 <= u < n && (#[trigger] concat_items(ps, n)[k]).project_id@ == ps[u].id@,
    decreases n,
{
    if n > 0 {
        lemma_concat_items_parent(ps, n - 1);
        let c = concat_items(ps, n);
        let a = concat_items(ps, n - 1);
        let b = ps[n - 1].items@;
        assert forall|k: int| 0 <= k < c.len() implies exists|u: int|
            0 <= u < n && (#[trigger] c[k]).project_id@ == ps[u].id@ by {
            if k < a.len() {
                assert(c[k] == a[k]);
                let u = choose|u: int| 0 <= u < n - 1 && a[k].project_id@ == ps[u].id@;
                assert(c[k].project_id@ == ps[u].id@);
            } else {
                assert(c[k] == b[k - a.len()]);
                assert(c[k].project_id@ == ps[n - 1].id@);
            }
        };
    }
}


/// The cards among the first `n` of `cc` that belong to project
/// `pid`, in order.
pub open spec fn fcards_for(cc: Seq<FileCard>, pid: Seq<char>, n: int) -> Seq<FileCard>
    decreases n,
{
    if n <= 0 {
        Seq::empty()
    } else if cc[n - 1].project_id@ == pid {
        fcards_for(cc, pid, n - 1).push(cc[n - 1])
    } else {
        fcards_for(cc, pid, n - 1)
    }
}

/// A wire round trip of one card is the identity.
proof fn lemma_card_row_roundtrip(fc: FileCard, cr: FileCardRow, fc2: FileCard)
    requires
        card_row_of(cr, fc),
        card_from_row(fc2, cr),
    ensures
        fc2 == fc,
{
}

/// Selecting by parent commutes with the pointwise wire relation.
proof fn lemma_cards_for_pointwise(
    cv: Seq<FileCardRow>,
    cc: Seq<FileCard>,
    pid: Seq<char>,
    n: int,
)
    requires
        cv.len() == cc.len(),
        forall|k: int| 0 <= k < cv.len() ==> card_row_of(#[trigger] cv[k], cc[k]),
        0 <= n <= cv.len(),
    ensures
        cards_for(cv, pid, n).len() == fcards_for(cc, pid, n).len(),
        forall|j: int|
            0 <= j < cards_for(cv, pid, n).len() ==> card_row_of(
                #[trigger] cards_for(cv, pid, n)[j],
                fcards_for(cc, pid, n)[j],
            ),
    decreases n,
{
    if n > 0 {
        lemma_cards_for_pointwise(cv, cc, pid, n - 1);
        assert(card_row_of(cv[n - 1], cc[n - 1]));
        assert(cv[n - 1].project_id@ == cc[n - 1].project_id@);
    }
}

/// `fcards_for` looks only at the first `n` entries.
proof fn lemma_fcards_for_prefix(s1: Seq<FileCard>, s2: Seq<FileCard>, pid: Seq<char>, n: int)
    requires
        0 <= n <= s1.len(),
        n <= s2.len(),
        forall|k: int| 0 <= k < n ==> s1[k] == s2[k],
    ensures
        fcards_for(s1, pid, n) == fcards_for(s2, pid, n),
    decreases n,
{
    if n > 0 {
        lemma_fcards_for_prefix(s1, s2, pid, n - 1);
    }
}

/// Selecting from a concatenation selects from each part.
proof fn lemma_fcards_for_append(a: Seq<FileCard>, b: Seq<FileCard>, pid: Seq<char>, j: int)
    requires
        0 <= j <= b.len(),
    ensures
        fcards_for(a + b, pid, a.len() + j) =~= fcards_for(a, pid, a.len() as int) + fcards_for(
            b,
            pid,
            j,
        ),
    decreases j,
{
    if j == 0 {
        lemma_fcards_for_prefix(a + b, a, pid, a.len() as int);
        assert(fcards_for(b, pid, 0) =~= Seq::<FileCard>::empty());
        assert(fcards_for(a, pid, a.len() as int) + Seq::<FileCard>::empty() =~= fcards_for(
            a,
            pid,
            a.len() as int,
        ));
    } else {
        lemma_fcards_for_append(a, b, pid, j - 1);
        assert((a + b)[a.len() + j - 1] == b[j - 1]);
    }
}

/// Selecting a parent that owns everything yields everything.
proof fn lemma_fcards_for_all(s: Seq<FileCard>, pid: Seq<char>, n: int)
    requires
        0 <= n <= s.len(),
        forall|k: int| 0 <= k < n ==> (#[trigger] s[k]).project_id@ == pid,
    ensures
        fcards_for(s, pid, n) =~= s.subrange(0, n),
    decreases n,
{
    if n > 0 {
        lemma_fcards_for_all(s, pid, n - 1);
    }
}

/// Selecting a parent that owns nothing yields nothing.
proof fn lemma_fcards_for_none(s: Seq<FileCard>, pid: Seq<char>, n: int)
    requires
        0 <= n <= s.len(),
        forall|k: int| 0 <= k < n ==> (#[trigger] s[k]).project_id@ != pid,
    ensures
        fcards_for(s, pid, n) =~= Seq::<FileCard>::empty(),
    decreases n,
{
    if n > 0 {
        lemma_fcards_for_none(s, pid, n - 1);
    }
}

/// No card of the first `n` well-formed documents names `id` as its
/// parent when no such document is the project `id`.
proof fn lemma_concat_cards_none(ps: Seq<ProjectData>, id: Seq<char>, n: int)
    requires
        0 <= n <= ps.len(),
        forall|i: int| 0 <= i < ps.len() ==> (#[trigger] ps[i]).wf(),
        forall|i: int| 0 <= i < n ==> (#[trigger] ps[i]).id@ != id,
    ensures
        fcards_for(concat_cards(ps, n), id, concat_cards(ps, n).len() as int) =~= Seq::<
            FileCard,
        >::empty(),
    decreases n,
{
    if n > 0 {
        lemma_concat_cards_none(ps, id, n - 1);
        let a = concat_cards(ps, n - 1);
        let b = ps[n - 1].file_cards@;
        lemma_fcards_for_append(a, b, id, b.len() as int);
        assert forall|k: int| 0 <= k < b.len() implies (#[trigger] b[k]).project_id@ != id by {
            assert(b[k].project_id@ == ps[n - 1].id@);
        };
        lemma_fcards_for_none(b, id, b.len() as int);
    }
}

/// Selecting project `t`'s id out of the concatenated cards of `n`
/// well-formed documents with unique ids gives back exactly project
/// `t`'s cards.
proof fn lemma_concat_cards_roundtrip(ps: Seq<ProjectData>, t: int, n: int)
    requires
        docs_unique(ps),
        forall|i: int| 0 <= i < ps.len() ==> (#[trigger] ps[i]).wf(),
        0 <= t < n <= ps.len(),
    ensures
        fcards_for(concat_cards(ps, n), ps[t].id@, concat_cards(ps, n).len() as int)
            =~= ps[t].file_cards@,
    decreases n,
{
    let id = ps[t].id@;
    if n == t + 1 {
        let a = concat_cards(ps, t);
        let b = ps[t].file_cards@;
        lemma_fcards_for_append(a, b, id, b.len() as int);
        assert forall|i: int| 0 <= i < t implies (#[trigger] ps[i]).id@ != id by {
            assert(ps[i].id@ != ps[t].id@);
        };
        lemma_concat_cards_none(ps, id, t);
        assert forall|k: int| 0 <= k < b.len() implies (#[trigger] b[k]).project_id@ == id by {
            assert(b[k].project_id@ == ps[t].id@);
        };
        lemma_fcards_for_all(b, id, b.len() as int);
        assert(b.subrange(0, b.len() as int) =~= b);
    } else {
        lemma_concat_cards_roundtrip(ps, t, n - 1);
        let a = concat_cards(ps, n - 1);
        let b = ps[n - 1].file_cards@;
        lemma_fcards_for_append(a, b, id, b.len() as int);
        assert forall|k: int| 0 <= k < b.len() implies (#[trigger] b[k]).project_id@ != id by {
            assert(b[k].project_id@ == ps[n - 1].id@);
            assert(ps[t].id@ != ps[n - 1].id@);
        };
        lemma_fcards_for_none(b, id, b.len() as int);
    }
}

/// Each position of the concatenated cards of the first `n` documents
/// belongs to one of those documents.
proof fn lemma_concat_cards_parent(ps: Seq<ProjectData>, n: int)
    requires
        0 <= n <= ps.len(),
        forall|i: int| 0 <= i < ps.len() ==> (#[trigger] ps[i]).wf(),
    ensures
        forall|k: int|
            0 <= k < concat_cards(ps, n).len() ==> exists|u: int|
                0 <= u < n && (#[trigger] concat_cards(ps, n)[k]).project_id@ == ps[u].id@,
    decreases n,
{
    if n > 0 {
        lemma_concat_cards_parent(ps, n - 1);
        let c = concat_cards(ps, n);
        let a = concat_cards(ps, n - 1);
        let b = ps[n - 1].file_cards@;
        assert forall|k: int| 0 <= k < c.len() implies exists|u: int|
            0 <= u < n && (#[trigger] c[k]).project_id@ == ps[u].id@ by {
            if k < a.len() {
                assert(c[k] == a[k]);
                let u = choose|u: int| 0 <= u < n - 1 && a[k].project_id@ == ps[u].id@;
                assert(c[k].project_id@ == ps[u].id@);
            } else {
                assert(c[k] == b[k - a.len()]);
                assert(c[k].project_id@ == ps[n - 1].id@);
            }
        };
    }
}

/// Every card row of a full export counts as matched against the
/// export's own rows.
proof fn lemma_concat_cards_matched(
    ps: Seq<ProjectData>,
    rows: Seq<ProjectRow>,
    cv: Seq<FileCardRow>,
    n: int,
)
    requires
        forall|i: int| 0 <= i < ps.len() ==> (#[trigger] ps[i]).wf(),
        rows.len() == ps.len(),
        forall|i: int| 0 <= i < ps.len() ==> row_of(rows[i], #[trigger] ps[i]),
        cv.len() == concat_cards(ps, ps.len() as int).len(),
        forall|k: int|
            0 <= k < cv.len() ==> card_row_of(
                #[trigger] cv[k],
                concat_cards(ps, ps.len() as int)[k],
            ),
        0 <= n <= cv.len(),
    ensures
        cards_matched(cv, rows, n) == n,
    decreases n,
{
    if n > 0 {
        lemma_concat_cards_matched(ps, rows, cv, n - 1);
        lemma_concat_cards_parent(ps, ps.len() as int);
        let cc = concat_cards(ps, ps.len() as int);
        assert(cv[n - 1].project_id@ == cc[n - 1].project_id@);
        let u = choose|u: int|
            0 <= u < ps.len() && cc[n - 1].project_id@ == ps[u].id@;
        assert(rows[u].id@ == ps[u].id@);
        assert(rows_have(rows, cv[n - 1].project_id@));
    }
}

/// Whether two documents carry the same project: the record fields,
/// items and file cards agree (todos are not compared; an export
/// envelope does not carry them).
pub open spec fn doc_equiv(a: ProjectData, b: ProjectData) -> bool {
    &&& a.id == b.id
    &&& a.name == b.name
    &&& a.description == b.description
    &&& a.metadata.mdv() == b.metadata.mdv()
    &&& a.created_at == b.created_at
    &&& a.updated_at == b.updated_at
    &&& a.items@ == b.items@
    &&& a.file_cards@ == b.file_cards@
}

/// The export / import round trip: exporting every loaded document of
/// a well-formed store and importing the resulting duplicate-free
/// envelope into an empty store reproduces an equivalent set of
/// projects, items and file cards, importing every record and
/// skipping none.  The hypotheses are exactly what
/// `export_all_data_at` guarantees of a full export, and what
/// `import_data_at` guarantees of a clean envelope over an empty
/// base; only the export stamp is regenerated, and todos, which the
/// envelope does not carry, come back empty.
pub proof fn lemma_export_import_round_trip(
    pre: JsonStore,
    e: ExportData,
    data: ImportData,
    post: JsonStore,
    res: ImportResult,
)
    requires
        pre.wf(),
        e.projects@.len() == pre.projects@.len(),
        forall|t: int|
            0 <= t < pre.projects@.len() ==> row_of(e.projects@[t], #[trigger] pre.projects@[t]),
        e.items@ == concat_items(pre.projects@, pre.projects@.len() as int),
        e.file_cards matches Some(cv) && cv@.len() == concat_cards(
            pre.projects@,
            pre.projects@.len() as int,
        ).len() && (forall|k: int|
            0 <= k < cv@.len() ==> card_row_of(
                #[trigger] cv@[k],
                concat_cards(pre.projects@, pre.projects@.len() as int)[k],
            )),
        data.projects@ == e.projects@,
        data.items@ == e.items@,
        data.file_cards == e.file_cards,
        clean_envelope(data),
        post.projects@.len() == data.projects@.len(),
        forall|t: int|
            0 <= t < data.projects@.len() ==> imported_doc(
                post.projects@[t],
                #[trigger] data.projects@[t],
                data,
            ),
        res.projects_imported as int == data.projects@.len(),
        res.items_imported as int == items_matched(
            data.items@,
            data.projects@,
            data.items@.len() as int,
        ),
        res.file_cards_imported as int == cards_matched(
            data_cards(data),
            data.projects@,
            data_cards(data).len() as int,
        ),
        res.skipped as int == (data.items@.len() - items_matched(
            data.items@,
            data.projects@,
            data.items@.len() as int,
        )) + (data_cards(data).len() - cards_matched(
            data_cards(data),
            data.projects@,
            data_cards(data).len() as int,
        )),
    ensures
        post.projects@.len() == pre.projects@.len(),
        forall|t: int|
            0 <= t < pre.projects@.len() ==> doc_equiv(
                post.projects@[t],
                #[trigger] pre.projects@[t],
            ),
        forall|t: int| 0 <= t < post.projects@.len() ==> post.projects@[t].todos@.len() == 0,
        res.projects_imported as int == pre.projects@.len(),
        res.items_imported as int == e.items@.len(),
        res.file_cards_imported as int == data_cards(data).len(),
        res.skipped == 0,
{
    let ps = pre.projects@;
    let n = ps.len() as int;
    let rows = data.projects@;
    let cv = data.file_cards->0@;
    assert(data_cards(data) == cv);
    assert forall|t: int| 0 <= t < ps.len() implies doc_equiv(
        post.projects@[t],
        #[trigger] ps[t],
    ) by {
        assert(imported_doc(post.projects@[t], rows[t], data));
        assert(row_of(rows[t], ps[t]));
        assert(rows[t].id@ == ps[t].id@);
        lemma_concat_items_roundtrip(ps, t, n);
        assert(post.projects@[t].items@ == items_for(data.items@, rows[t].id@, data.items@.len() as int));
        assert(items_for(e.items@, ps[t].id@, e.items@.len() as int) =~= ps[t].items@);
        lemma_concat_cards_roundtrip(ps, t, n);
        lemma_cards_for_pointwise(cv, concat_cards(ps, n), ps[t].id@, cv.len() as int);
        let want = cards_for(cv, rows[t].id@, cv.len() as int);
        let cc_sel = fcards_for(concat_cards(ps, n), ps[t].id@, concat_cards(ps, n).len() as int);
        assert(cc_sel =~= ps[t].file_cards@);
        assert(want.len() == ps[t].file_cards@.len());
        assert forall|k: int| 0 <= k < post.projects@[t].file_cards@.len() implies post.projects@[
        t].file_cards@[k] == ps[t].file_cards@[k] by {
            assert(card_from_row(post.projects@[t].file_cards@[k], want[k]));
            assert(card_row_of(want[k], cc_sel[k]));
            lemma_card_row_roundtrip(ps[t].file_cards@[k], want[k], post.projects@[t].file_cards@[k]);
        };
        assert(post.projects@[t].file_cards@ =~= ps[t].file_cards@);
    };
    assert forall|t: int| 0 <= t < post.projects@.len() implies post.projects@[t].todos@.len()
        == 0 by {
        assert(imported_doc(post.projects@[t], rows[t], data));
    };
    lemma_concat_items_parent(ps, n);
    lemma_concat_items_matched(ps, rows, data.items@, data.items@.len() as int);
    lemma_concat_cards_matched(ps, rows, cv, cv.len() as int);
}

} // verus!

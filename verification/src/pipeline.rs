//! The per-directory pipeline logic: turning one recognition outcome into a
//! page, collecting the surviving pages of a directory in ascending `index`
//! order, prepending the optional profile page, and assembling the document.
//!
//! Recognition itself, the concurrent dispatch and the file I/O live in the
//! surrounding program; it hands each task's outcome in as a plain value.

use vstd::multiset::Multiset;
use vstd::prelude::*;
use vstd::string::StringExecFns;

use crate::page::{Page, PageView, Project, pages_ordered};

verus! {

broadcast use vstd::seq_lib::group_to_multiset_ensures, vstd::multiset::group_multiset_axioms;

/// The views of a sequence of pages.
pub open spec fn views(s: Seq<Page>) -> Seq<PageView> {
    s.map_values(|p: Page| p@)
}

/// The multiset of page views among the successful outcomes of a batch.
/// `None` stands for a page whose recognition failed and which is dropped.
pub open spec fn some_pages(s: Seq<Option<Page>>) -> Multiset<PageView>
    decreases s.len(),
{
    if s.len() == 0 {
        Multiset::empty()
    } else {
        let rest = some_pages(s.drop_last());
        match s.last() {
            Some(p) => rest.insert(p@),
            None => rest,
        }
    }
}

/// The successful outcomes carry pairwise distinct indices (each page keeps
/// the position of its source image, and positions are distinct).
pub open spec fn distinct_some_indices(s: Seq<Option<Page>>) -> bool {
    forall|i: int, j: int|
        0 <= i < j < s.len() && s[i] is Some && s[j] is Some
            ==> (#[trigger] s[i])->0.index != (#[trigger] s[j])->0.index
}

/// The page view `v` stems from a successful outcome at a position of `orig`
/// at or beyond `cut`.
spec fn tail_has(orig: Seq<Option<Page>>, cut: int, v: PageView) -> bool {
    exists|m: int| cut <= m < orig.len() && (#[trigger] orig[m]) is Some && orig[m]->0@ == v
}

/// Every page view in `pv` stems from a successful outcome at a position of
/// `orig` at or beyond `cut`.
spec fn drawn_from_tail(orig: Seq<Option<Page>>, cut: int, pv: Seq<PageView>) -> bool {
    forall|k: int| 0 <= k < pv.len() ==> tail_has(orig, cut, #[trigger] pv[k])
}

/// The number of successful outcomes in a batch: with `P` dispatched pages of
/// which `F` failed, this is `P - F`.
pub open spec fn success_count(s: Seq<Option<Page>>) -> nat
    decreases s.len(),
{
    if s.len() == 0 {
        0
    } else {
        success_count(s.drop_last()) + if s.last() is Some {
            1nat
        } else {
            0nat
        }
    }
}

/// The successful outcomes of a batch are as many as the pages collected from
/// it.
pub proof fn lemma_some_pages_len(s: Seq<Option<Page>>)
    ensures
        some_pages(s).len() == success_count(s),
    decreases s.len(),
{
    if s.len() > 0 {
        lemma_some_pages_len(s.drop_last());
    }
}

/// Law: the output ordering is determined by the recognition outcomes alone.
/// Two strictly index-ordered page sequences that hold the same pages are the
/// same sequence.  Since `collect_pages` promises exactly the multiset of
/// successful outcomes in strictly ascending `index` order, re-running a
/// directory whose recognition outcomes are unchanged yields a document with
/// identical page ordering and content, no matter in which order the
/// concurrent tasks completed.
pub proof fn lemma_ordered_pages_unique(p1: Seq<PageView>, p2: Seq<PageView>)
    requires
        pages_ordered(p1),
        pages_ordered(p2),
        p1.to_multiset() == p2.to_multiset(),
    ensures
        p1 == p2,
    decreases p1.len(),
{
    if p1.len() == 0 {
        assert(p2.to_multiset().len() == 0);
        assert(p1 =~= p2);
    } else {
        assert(p1.contains(p1[0]));
        assert(p2.to_multiset().count(p1[0]) > 0);
        assert(p2.contains(p1[0]));
        let k = choose|k: int| 0 <= k < p2.len() && p2[k] == p1[0];
        assert(p2.contains(p2[0]));
        assert(p1.to_multiset().count(p2[0]) > 0);
        assert(p1.contains(p2[0]));
        let m = choose|m: int| 0 <= m < p1.len() && p1[m] == p2[0];
        if k > 0 {
            assert(p2[0].index < p2[k].index);
            if m > 0 {
                assert(p1[0].index < p1[m].index);
            }
            assert(false);
        }
        assert(p1[0] == p2[0]);
        let t1 = p1.drop_first();
        let t2 = p2.drop_first();
        assert(p1.remove(0) =~= t1);
        assert(p2.remove(0) =~= t2);
        assert(t1.to_multiset() =~= p1.to_multiset().remove(p1[0]));
        assert(t2.to_multiset() =~= p2.to_multiset().remove(p2[0]));
        assert(pages_ordered(t1)) by {
            assert forall|i: int, j: int| 0 <= i < j < t1.len() implies t1[i].index
                < t1[j].index by {
                assert(t1[i] == p1[i + 1] && t1[j] == p1[j + 1]);
            }
        }
        assert(pages_ordered(t2)) by {
            assert forall|i: int, j: int| 0 <= i < j < t2.len() implies t2[i].index
                < t2[j].index by {
                assert(t2[i] == p2[i + 1] && t2[j] == p2[j + 1]);
            }
        }
        lemma_ordered_pages_unique(t1, t2);
        assert(p1.to_multiset().len() == p2.to_multiset().len());
        assert(p1.len() == p2.len());
        assert forall|i: int| 0 <= i < p1.len() implies p1[i] == p2[i] by {
            if i > 0 {
                assert(t1[i - 1] == p1[i]);
                assert(t2[i - 1] == p2[i]);
            }
        }
        assert(p1 =~= p2);
    }
}

/// Law: re-running a directory whose recognition outcomes are unchanged
/// yields a document with identical page ordering and content.  Two batches
/// that hold the same successful pages — the same run repeated with a
/// deterministic recognition client, or the same run with its tasks
/// completing in another order — collect to the same page sequence, since
/// `collect_pages` promises exactly the successes in strictly ascending
/// `index` order.
pub proof fn lemma_rerun_collects_identically(
    r1: Seq<Option<Page>>,
    r2: Seq<Option<Page>>,
    v1: Seq<PageView>,
    v2: Seq<PageView>,
)
    requires
        some_pages(r1) == some_pages(r2),
        pages_ordered(v1),
        pages_ordered(v2),
        v1.to_multiset() == some_pages(r1),
        v2.to_multiset() == some_pages(r2),
    ensures
        v1 == v2,
{
    lemma_ordered_pages_unique(v1, v2);
}

/// Error signalled when recognition of one page failed; it identifies the
/// page by its 1-based ordinal.
#[derive(Debug)]
pub struct PageFailure {
    pub page_number: usize,
}

impl PageFailure {
    /// The diagnostic line surfaced for this page, naming its 1-based number.
    pub fn message(&self) -> (s: String)
        ensures
            s@ == "Failed to extract text from image on page "@ + crate::json::dec_rep(
                self.page_number as nat,
            ),
    {
        let mut digits: Vec<char> = Vec::new();
        crate::json::push_dec(self.page_number, &mut digits);
        let number = crate::json::string_from_chars(&digits);
        let head = String::from_str("Failed to extract text from image on page ");
        proof {
            reveal_strlit("Failed to extract text from image on page ");
        }
        head.concat(number.as_str())
    }
}

/// Error signalled when synthesising the profile page failed.
#[derive(Debug)]
pub struct ProfileError {
    pub detail: String,
}

/// Wraps one recognition outcome for the image at position `index` into a
/// `Page`, or into a failure naming the 1-based page number.  Exactly the
/// successful outcome yields a page; a failure never aborts the batch.
pub fn page_from_recognition(index: usize, outcome: Result<String, String>) -> (r: Result<
    Page,
    PageFailure,
>)
    requires
        index < usize::MAX,
    ensures
        outcome matches Ok(t) ==> (r matches Ok(p) && p.index == index && p.text == t),
        outcome is Err ==> (r matches Err(f) && f.page_number == index + 1),
{
    match outcome {
        Ok(text) => Ok(Page { index, text }),
        Err(_) => Err(PageFailure { page_number: index + 1 }),
    }
}

/// Inserts `p` into a sequence of pages kept in strictly ascending `index`
/// order, preserving that order.
fn insert_sorted(pages: &mut Vec<Page>, p: Page)
    requires
        pages_ordered(views(old(pages)@)),
        forall|k: int| 0 <= k < old(pages)@.len() ==> views(old(pages)@)[k].index != p@.index,
    ensures
        pages_ordered(views(final(pages)@)),
        views(final(pages)@).to_multiset() == views(old(pages)@).to_multiset().insert(p@),
        final(pages)@.len() == old(pages)@.len() + 1,
        forall|k: int|
            0 <= k < final(pages)@.len() ==> views(final(pages)@)[k] == p@ || exists|m: int|
                0 <= m < old(pages)@.len() && views(old(pages)@)[m] == #[trigger] views(
                    final(pages)@,
                )[k],
{
    let ghost orig = pages@;
    let mut pos: usize = 0;
    while pos < pages.len() && pages[pos].index < p.index
        invariant
            pages@ == orig,
            pages_ordered(views(orig)),
            forall|k: int| 0 <= k < orig.len() ==> views(orig)[k].index != p@.index,
            0 <= pos <= orig.len(),
            forall|k: int| 0 <= k < pos ==> views(orig)[k].index < p@.index,
        decreases orig.len() - pos,
    {
        pos += 1;
    }
    assert(pos < orig.len() ==> views(orig)[pos as int].index > p@.index);
    pages.insert(pos, p);
    proof {
        assert(views(pages@) =~= views(orig).insert(pos as int, p@));
        vstd::seq_lib::to_multiset_insert(views(orig), pos as int, p@);
        assert forall|k: int| 0 <= k < views(pages@).len() implies views(pages@)[k] == p@
            || exists|m: int|
            0 <= m < orig.len() && views(orig)[m] == #[trigger] views(pages@)[k] by {
            if k < pos {
                assert(views(orig)[k] == views(pages@)[k]);
            } else if k > pos {
                assert(views(orig)[k - 1] == views(pages@)[k]);
            }
        }
    }
}

/// Collects the surviving pages of one directory's batch.  `results` holds
/// one outcome per dispatched task, in whatever order the tasks completed:
/// `Some(page)` where recognition succeeded, `None` where it failed.  The
/// result holds exactly the successful pages, each keeping the `index` of its
/// source image, in strictly ascending `index` order; failed pages are simply
/// absent (holes, no placeholders).
pub fn collect_pages(results: Vec<Option<Page>>) -> (pages: Vec<Page>)
    requires
        distinct_some_indices(results@),
    ensures
        pages_ordered(views(pages@)),
        views(pages@).to_multiset() == some_pages(results@),
        pages@.len() == success_count(results@),
{
    let ghost orig = results@;
    let mut rest = results;
    let mut pages: Vec<Page> = Vec::new();
    proof {
        assert(rest@ =~= orig.subrange(0, rest@.len() as int));
        assert(views(pages@) =~= Seq::<PageView>::empty());
        assert(views(pages@).to_multiset() =~= Multiset::empty());
    }
    while rest.len() > 0
        invariant
            distinct_some_indices(orig),
            rest@.len() <= orig.len(),
            rest@ == orig.subrange(0, rest@.len() as int),
            pages_ordered(views(pages@)),
            some_pages(rest@).add(views(pages@).to_multiset()) == some_pages(orig),
            drawn_from_tail(orig, rest@.len() as int, views(pages@)),
        decreases rest@.len(),
    {
        let ghost pre = rest@;
        let r = rest.pop();
        proof {
            assert(pre == orig.subrange(0, pre.len() as int));
            assert(rest@ == pre.subrange(0, pre.len() - 1));
            assert forall|i: int| 0 <= i < rest@.len() implies rest@[i] == orig[i] by {
                assert(rest@[i] == pre[i]);
                assert(pre[i] == orig.subrange(0, pre.len() as int)[i]);
            }
            assert(rest@ =~= orig.subrange(0, rest@.len() as int));
            assert(pre.drop_last() =~= rest@);
            assert(pre.last() == pre[pre.len() - 1]);
            assert(pre[pre.len() - 1] == orig[pre.len() - 1]);
            assert(r == Some(orig[rest@.len() as int]));
        }
        match r {
            Some(Some(p)) => {
                let ghost pviews = views(pages@);
                proof {
                    assert(orig[rest@.len() as int] is Some && orig[rest@.len() as int]->0 == p);
                    assert(drawn_from_tail(orig, pre.len() as int, views(pages@)));
                    assert forall|k: int| 0 <= k < pages@.len() implies views(pages@)[k].index
                        != p@.index by {
                        let pk = views(pages@)[k];
                        assert(tail_has(orig, pre.len() as int, pk));
                        let m = choose|m: int|
                            pre.len() <= m < orig.len() && (#[trigger] orig[m]) is Some
                                && orig[m]->0@ == pk;
                        assert(orig[rest@.len() as int]->0.index != orig[m]->0.index);
                    }
                }
                insert_sorted(&mut pages, p);
                proof {
                    assert(some_pages(pre) == some_pages(rest@).insert(p@));
                    assert(some_pages(rest@).add(views(pages@).to_multiset()) =~= some_pages(
                        pre,
                    ).add(pviews.to_multiset()));
                    assert forall|k: int| 0 <= k < views(pages@).len() implies tail_has(
                        orig,
                        rest@.len() as int,
                        #[trigger] views(pages@)[k],
                    ) by {
                        let pk = views(pages@)[k];
                        if pk == p@ {
                            let m0 = rest@.len() as int;
                            assert(rest@.len() <= m0 < orig.len() && orig[m0] is Some
                                && orig[m0]->0@ == pk);
                            assert(tail_has(orig, rest@.len() as int, pk));
                        } else {
                            assert(drawn_from_tail(orig, pre.len() as int, pviews));
                            let m1 = choose|m1: int| 0 <= m1 < pviews.len() && pviews[m1] == pk;
                            assert(tail_has(orig, pre.len() as int, pk));
                            let m0 = choose|m: int|
                                pre.len() <= m < orig.len() && (#[trigger] orig[m]) is Some
                                    && orig[m]->0@ == pk;
                            assert(rest@.len() <= m0 < orig.len() && orig[m0] is Some
                                && orig[m0]->0@ == pk);
                            assert(tail_has(orig, rest@.len() as int, pk));
                        }
                    }
                    assert(drawn_from_tail(orig, rest@.len() as int, views(pages@)));
                }
            },
            Some(None) => {
                proof {
                    assert(some_pages(pre) == some_pages(rest@));
                    assert(drawn_from_tail(orig, pre.len() as int, views(pages@)));
                    assert forall|k: int| 0 <= k < views(pages@).len() implies tail_has(
                        orig,
                        rest@.len() as int,
                        #[trigger] views(pages@)[k],
                    ) by {
                        let pk = views(pages@)[k];
                        assert(tail_has(orig, pre.len() as int, pk));
                        let m0 = choose|m: int|
                            pre.len() <= m < orig.len() && (#[trigger] orig[m]) is Some
                                && orig[m]->0@ == pk;
                        assert(rest@.len() <= m0 < orig.len() && orig[m0] is Some
                            && orig[m0]->0@ == pk);
                        assert(tail_has(orig, rest@.len() as int, pk));
                    }
                    assert(drawn_from_tail(orig, rest@.len() as int, views(pages@)));
                }
            },
            None => {
                proof {
                    assert(false);
                }
            },
        }
    }
    proof {
        assert(rest@ =~= Seq::<Option<Page>>::empty());
        assert(some_pages(rest@) =~= Multiset::empty());
        assert(views(pages@).to_multiset() =~= some_pages(orig));
        vstd::seq_lib::to_multiset_len(views(pages@));
        lemma_some_pages_len(orig);
    }
    pages
}

/// Prepends the profile page when one was synthesised.  `synthesis` is the
/// outcome of the profile-synthesis call: `None` when no profile is
/// configured, `Some(Ok(p))` when synthesis produced the page `p`, and
/// `Some(Err(e))` when it failed, which aborts this directory's document.
pub fn add_profile_page(synthesis: Option<Result<Page, ProfileError>>, pages: Vec<Page>) -> (r:
    Result<Vec<Page>, ProfileError>)
    ensures
        synthesis is None ==> (r matches Ok(v) && v@ == pages@),
        synthesis matches Some(Ok(p)) ==> (r matches Ok(v) && v@ == pages@.insert(0, p)),
        synthesis matches Some(Err(e)) ==> (r matches Err(e2) && e2 == e),
{
    match synthesis {
        None => Ok(pages),
        Some(Ok(p)) => {
            let mut v = pages;
            v.insert(0, p);
            Ok(v)
        },
        Some(Err(e)) => Err(e),
    }
}

/// Assembles one directory's document from the outcomes of its recognition
/// batch and the outcome of the optional profile synthesis.  The document
/// holds exactly the pages whose recognition succeeded, in strictly ascending
/// `index` order; when a profile page was synthesised it stands first,
/// whatever happened to the image pages; when synthesis failed, no document
/// is produced for this directory and the error is handed back.
pub fn build_document(
    results: Vec<Option<Page>>,
    synthesis: Option<Result<Page, ProfileError>>,
) -> (r: Result<Project, ProfileError>)
    requires
        distinct_some_indices(results@),
    ensures
        synthesis is None ==> (r matches Ok(d) && pages_ordered(d@) && d@.to_multiset()
            == some_pages(results@) && d@.len() == success_count(results@)),
        synthesis matches Some(Ok(p)) ==> (r matches Ok(d) && d@.len() == success_count(results@)
            + 1 && d@[0] == p@ && pages_ordered(d@.drop_first()) && d@.drop_first().to_multiset()
            == some_pages(results@)),
        synthesis matches Some(Err(e)) ==> (r matches Err(e2) && e2 == e),
{
    let pages = collect_pages(results);
    let ghost pgs = pages@;
    let ghost collected = views(pages@);
    match add_profile_page(synthesis, pages) {
        Ok(v) => {
            let d = Project { pages: v };
            proof {
                if synthesis is None {
                    assert(d@ =~= collected);
                } else {
                    let p = synthesis->0->Ok_0;
                    assert(d.pages@ == pgs.insert(0, p));
                    assert(d@ =~= collected.insert(0, p@));
                    assert(d@[0] == p@);
                    assert(d@.drop_first() =~= collected);
                }
            }
            Ok(d)
        },
        Err(e) => Err(e),
    }
}

} // verus!

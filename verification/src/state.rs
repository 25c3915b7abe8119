//! The query/selection state machine.
//!
//! One `CommandPaletteState` owns a palette session: the current query, the
//! static item snapshot, the most recent asynchronous results, the merged,
//! ranked and truncated result list, the selection, and the generation
//! counter that invalidates stale asynchronous completions.  All outside
//! work (timers, the provider's asynchronous search) happens elsewhere; the
//! caller performs the [`AsyncQueryRequest`]s this machine hands out and
//! feeds completions back through [`CommandPaletteState::apply_async_results`].

use vstd::prelude::*;

use crate::order::{matched_views, ranking_sorted, sort_matches};
use crate::ranges::ranges_wf;
use crate::types::{
    CommandMatcher, CommandPaletteConfig, CommandPaletteItem, ItemView, MatchedItem,
    MatchedItemView,
};

verus! {

/// Grace period after the palette opens before asynchronous queries fire.
pub const REVEAL_DELAY_MS: u64 = 100;

/// Duration of the palette's reveal animation.
pub const REVEAL_ANIMATION_DURATION_MS: u64 = 180;

/// Asynchronous queries are deferred until this long after the session start.
pub const REVEAL_QUERY_DELAY_MS: u64 = REVEAL_DELAY_MS + REVEAL_ANIMATION_DURATION_MS;

/// Events the state machine emits towards the presentation layer.
pub enum CommandPaletteEvent {
    /// An enabled item was confirmed.
    Selected { item: CommandPaletteItem },
    /// The palette was dismissed.
    Dismissed,
}

/// An asynchronous provider query the caller should now schedule: wait
/// `delay_ms`, re-read the current query, ask the provider, and hand the
/// items back together with `generation`.
pub struct AsyncQueryRequest {
    /// The generation this request belongs to; results are applied only while
    /// it is still current.
    pub generation: u64,
    /// Milliseconds to wait before invoking the provider.
    pub delay_ms: u64,
}

/// Mathematical values of a run of items.
pub open spec fn item_views(s: Seq<CommandPaletteItem>) -> Seq<ItemView> {
    s.map_values(|i: CommandPaletteItem| i@)
}

/// Whether some item in the run carries this id.
pub open spec fn contains_id(items: Seq<ItemView>, id: Seq<char>) -> bool {
    exists|k: int| 0 <= k < items.len() && #[trigger] items[k].id == id
}

/// The first item with the given id, if any.
pub open spec fn find_by_id(items: Seq<ItemView>, id: Seq<char>) -> Option<ItemView>
    decreases items.len(),
{
    if items.len() == 0 {
        None
    } else if items[0].id == id {
        Some(items[0])
    } else {
        find_by_id(items.drop_first(), id)
    }
}

/// The static snapshot with every entry superseded by the asynchronous item
/// of the same id, where one exists.
pub open spec fn merged_statics(statics: Seq<ItemView>, asyncs: Seq<ItemView>) -> Seq<ItemView> {
    Seq::new(
        statics.len(),
        |k: int|
            match find_by_id(asyncs, statics[k].id) {
                Some(a) => a,
                None => statics[k],
            },
    )
}

/// The asynchronous items whose id has no static counterpart, in order.
pub open spec fn async_only(statics: Seq<ItemView>, asyncs: Seq<ItemView>) -> Seq<ItemView> {
    asyncs.filter(|a: ItemView| !contains_id(statics, a.id))
}

/// No two items share an id.
pub open spec fn unique_ids(items: Seq<ItemView>) -> bool {
    forall|p: int, q: int| 0 <= p < q < items.len() ==> items[p].id != items[q].id
}

/// Every item of the run keyed by id, later occurrences replacing earlier
/// ones in place.
pub open spec fn dedup_by_id(items: Seq<ItemView>) -> Seq<ItemView>
    decreases items.len(),
{
    if items.len() == 0 {
        Seq::empty()
    } else {
        let rest = dedup_by_id(items.drop_last());
        let x = items.last();
        if contains_id(rest, x.id) {
            replace_by_id(rest, x)
        } else {
            rest.push(x)
        }
    }
}

/// `s` with every entry of `x`'s id replaced by `x`.
pub open spec fn replace_by_id(s: Seq<ItemView>, x: ItemView) -> Seq<ItemView> {
    Seq::new(
        s.len(),
        |k: int|
            if s[k].id == x.id {
                x
            } else {
                s[k]
            },
    )
}

/// The items that match the query under matcher `m`, paired with their match
/// outcomes, in item order.
pub open spec fn match_list<M: CommandMatcher>(
    m: M,
    query: Seq<char>,
    items: Seq<ItemView>,
) -> Seq<MatchedItemView>
    decreases items.len(),
{
    if items.len() == 0 {
        Seq::empty()
    } else {
        let rest = match_list(m, query, items.drop_last());
        match m.spec_match(query, items.last()) {
            Some(mi) => rest.push(MatchedItemView { item: items.last(), match_info: mi }),
            None => rest,
        }
    }
}

/// Well-formed highlight ranges on every matched item.
pub open spec fn matched_wf(s: Seq<MatchedItemView>) -> bool {
    forall|k: int|
        0 <= k < s.len() ==> {
            &&& ranges_wf(#[trigger] s[k].match_info.title_ranges, s[k].item.title)
            &&& (match s[k].item.subtitle {
                Some(t) => ranges_wf(s[k].match_info.subtitle_ranges, t),
                None => s[k].match_info.subtitle_ranges.len() == 0,
            })
        }
}

/// `out` presents `inp` for display: with a query it is a ranking-sorted
/// permutation of `inp` (rows equal in both score and title have no further
/// prescribed order); with the empty query it is `inp` in item order.
pub open spec fn is_ranking_of(
    out: Seq<MatchedItemView>,
    inp: Seq<MatchedItemView>,
    query: Seq<char>,
) -> bool {
    if query.len() == 0 {
        out == inp
    } else {
        out.to_multiset() == inp.to_multiset() && ranking_sorted(out)
    }
}

/// The number of rows shown in total for `ns` static and `na` asynchronous
/// matches under the `max_results` cap.
pub open spec fn total_limit_of(ns: int, na: int, max_results: int) -> int {
    if ns + na <= max_results {
        ns + na
    } else {
        max_results
    }
}

/// How many of the shown rows are static matches.
pub open spec fn static_limit_of(ns: int, na: int, max_results: int) -> int {
    if ns <= total_limit_of(ns, na, max_results) {
        ns
    } else {
        total_limit_of(ns, na, max_results)
    }
}

/// How many of the shown rows are asynchronous matches: only what capacity
/// the static matches leave.
pub open spec fn async_limit_of(ns: int, na: int, max_results: int) -> int {
    total_limit_of(ns, na, max_results) - static_limit_of(ns, na, max_results)
}

/// How `matched` and `matched_static_len` are recomputed from the query, the
/// static snapshot and the asynchronous results.  A one-character query
/// yields nothing at all; otherwise both candidate lists are matched, each is
/// ranked (when the query is non-empty), and the static list is truncated
/// first, asynchronous matches only filling what capacity remains.
pub open spec fn recompute_rel<M: CommandMatcher>(
    m: M,
    query: Seq<char>,
    statics: Seq<ItemView>,
    asyncs: Seq<ItemView>,
    max_results: int,
    matched: Seq<MatchedItemView>,
    matched_static_len: int,
) -> bool {
    if query.len() == 1 {
        matched.len() == 0 && matched_static_len == 0
    } else {
        let ms = match_list(m, query, merged_statics(statics, asyncs));
        let ma = match_list(m, query, async_only(statics, asyncs));
        let static_limit = static_limit_of(ms.len() as int, ma.len() as int, max_results);
        let async_limit = async_limit_of(ms.len() as int, ma.len() as int, max_results);
        exists|ss: Seq<MatchedItemView>, aa: Seq<MatchedItemView>|
            {
                &&& #[trigger] is_ranking_of(ss, ms, query)
                &&& #[trigger] is_ranking_of(aa, ma, query)
                &&& matched == ss.take(static_limit) + aa.take(async_limit)
                &&& matched_static_len == static_limit
            }
    }
}

/// The selection after a recompute: the first row when there is one.
pub open spec fn selection_reset(matched: Seq<MatchedItemView>, selected: Option<usize>) -> bool {
    if matched.len() == 0 {
        selected is None
    } else {
        selected == Some(0usize)
    }
}

proof fn lemma_find_by_id_at(s: Seq<ItemView>, id: Seq<char>, p: int)
    requires
        0 <= p < s.len(),
        s[p].id == id,
        forall|k: int| 0 <= k < p ==> s[k].id != id,
    ensures
        find_by_id(s, id) == Some(s[p]),
    decreases p,
{
    if p > 0 {
        lemma_find_by_id_at(s.drop_first(), id, p - 1);
    }
}

proof fn lemma_find_by_id_none(s: Seq<ItemView>, id: Seq<char>)
    requires
        forall|k: int| 0 <= k < s.len() ==> s[k].id != id,
    ensures
        find_by_id(s, id) is None,
    decreases s.len(),
{
    if s.len() > 0 {
        lemma_find_by_id_none(s.drop_first(), id);
    }
}

/// Position of the first item with the given id.
fn find_index_by_id(items: &Vec<CommandPaletteItem>, id: &String) -> (r: Option<usize>)
    ensures
        (match r {
            Some(p) => p < items@.len() && item_views(items@)[p as int].id == id@ && find_by_id(
                item_views(items@),
                id@,
            ) == Some(item_views(items@)[p as int]),
            None => find_by_id(item_views(items@), id@) is None && !contains_id(
                item_views(items@),
                id@,
            ),
        }),
        r is Some ==> contains_id(item_views(items@), id@),
{
    let ghost views = item_views(items@);
    let mut i: usize = 0;
    while i < items.len()
        invariant
            0 <= i <= items@.len(),
            views == item_views(items@),
            forall|k: int| 0 <= k < i ==> views[k].id != id@,
        decreases items@.len() - i,
    {
        if items[i].id == *id {
            proof {
                assert(views[i as int].id == id@);
                lemma_find_by_id_at(views, id@, i as int);
            }
            return Some(i);
        }
        i = i + 1;
    }
    proof {
        lemma_find_by_id_none(views, id@);
        assert(!contains_id(views, id@));
    }
    None
}

/// The static snapshot with asynchronous items of the same id substituted.
fn build_merged(
    statics: &Vec<CommandPaletteItem>,
    asyncs: &Vec<CommandPaletteItem>,
) -> (r: Vec<CommandPaletteItem>)
    ensures
        item_views(r@) == merged_statics(item_views(statics@), item_views(asyncs@)),
{
    let ghost sv = item_views(statics@);
    let ghost av = item_views(asyncs@);
    let ghost goal = merged_statics(sv, av);
    let mut out: Vec<CommandPaletteItem> = Vec::new();
    let mut i: usize = 0;
    while i < statics.len()
        invariant
            0 <= i <= statics@.len(),
            sv == item_views(statics@),
            av == item_views(asyncs@),
            goal == merged_statics(sv, av),
            item_views(out@) == goal.take(i as int),
        decreases statics@.len() - i,
    {
        proof {
            assert(sv[i as int] == statics@[i as int]@);
            assert(sv[i as int].id == statics@[i as int].id@);
        }
        let next = match find_index_by_id(asyncs, &statics[i].id) {
            Some(p) => {
                proof {
                    assert(av[p as int] == asyncs@[p as int]@);
                    assert(find_by_id(av, sv[i as int].id) == Some(av[p as int]));
                    assert(goal[i as int] == av[p as int]);
                }
                asyncs[p].clone()
            },
            None => {
                proof {
                    assert(goal[i as int] == sv[i as int]);
                }
                statics[i].clone()
            },
        };
        proof {
            assert(next@ == goal[i as int]);
        }
        let ghost prev = out@;
        out.push(next);
        proof {
            assert(item_views(out@) =~= item_views(prev).push(goal[i as int]));
            assert(item_views(out@) =~= goal.take(i + 1));
        }
        i = i + 1;
    }
    proof {
        assert(goal.take(goal.len() as int) =~= goal);
    }
    out
}

/// The asynchronous items that have no static counterpart, in order.
fn build_async_only(
    statics: &Vec<CommandPaletteItem>,
    asyncs: &Vec<CommandPaletteItem>,
) -> (r: Vec<CommandPaletteItem>)
    ensures
        item_views(r@) == async_only(item_views(statics@), item_views(asyncs@)),
{
    let ghost sv = item_views(statics@);
    let ghost av = item_views(asyncs@);
    let mut out: Vec<CommandPaletteItem> = Vec::new();
    let mut i: usize = 0;
    proof {
        reveal(Seq::filter);
        assert(item_views(out@) =~= async_only(sv, av.take(0)));
    }
    while i < asyncs.len()
        invariant
            0 <= i <= asyncs@.len(),
            sv == item_views(statics@),
            av == item_views(asyncs@),
            item_views(out@) == async_only(sv, av.take(i as int)),
        decreases asyncs@.len() - i,
    {
        let keep = match find_index_by_id(statics, &asyncs[i].id) {
            Some(_) => false,
            None => true,
        };
        if keep {
            out.push(asyncs[i].clone());
        }
        proof {
            reveal(Seq::filter);
            assert(av.take(i + 1).drop_last() =~= av.take(i as int));
            assert(av.take(i + 1).last() == av[i as int]);
            assert(av[i as int].id == asyncs@[i as int].id@);
            if keep {
                assert(item_views(out@) =~= async_only(sv, av.take(i as int)).push(av[i as int]));
            }
            assert(item_views(out@) =~= async_only(sv, av.take(i + 1)));
        }
        i = i + 1;
    }
    proof {
        assert(av.take(av.len() as int) =~= av);
    }
    out
}

/// Matches a list of candidates, keeping the matching ones in order.
fn match_items_list<M: CommandMatcher>(
    m: &M,
    query: &str,
    items: &Vec<CommandPaletteItem>,
) -> (r: Vec<MatchedItem>)
    ensures
        matched_views(r@) == match_list(*m, query@, item_views(items@)),
        matched_wf(matched_views(r@)),
{
    let ghost views = item_views(items@);
    let mut out: Vec<MatchedItem> = Vec::new();
    let mut i: usize = 0;
    proof {
        assert(matched_views(out@) =~= match_list(*m, query@, views.take(0)));
    }
    while i < items.len()
        invariant
            0 <= i <= items@.len(),
            views == item_views(items@),
            matched_views(out@) == match_list(*m, query@, views.take(i as int)),
            matched_wf(matched_views(out@)),
        decreases items@.len() - i,
    {
        proof {
            assert(views.take(i + 1).drop_last() =~= views.take(i as int));
            assert(views.take(i + 1).last() == views[i as int]);
        }
        let ghost oldv = matched_views(out@);
        match m.match_item(query, &items[i]) {
            Some(mi) => {
                let ghost miv = mi@;
                let ghost itv = items@[i as int]@;
                let entry = MatchedItem::new(items[i].clone(), mi);
                proof {
                    assert(entry@ == (MatchedItemView {
                        item: views[i as int],
                        match_info: entry@.match_info,
                    }));
                }
                out.push(entry);
                proof {
                    assert(matched_views(out@) =~= oldv.push(entry@));
                    assert(matched_views(out@) =~= match_list(*m, query@, views.take(i + 1)));
                    let newv = matched_views(out@);
                    assert forall|k: int|
                        0 <= k < newv.len() implies {
                        &&& ranges_wf(#[trigger] newv[k].match_info.title_ranges, newv[k].item.title)
                        &&& (match newv[k].item.subtitle {
                            Some(t) => ranges_wf(newv[k].match_info.subtitle_ranges, t),
                            None => newv[k].match_info.subtitle_ranges.len() == 0,
                        })
                    } by {
                        if k < newv.len() - 1 {
                            assert(newv[k] == oldv[k]);
                            assert(ranges_wf(oldv[k].match_info.title_ranges, oldv[k].item.title));
                        } else {
                            assert(newv[k] == entry@);
                            assert(entry@.match_info == miv);
                            assert(entry@.item == itv);
                            assert(ranges_wf(miv.title_ranges, itv.title));
                        }
                    }
                }
            },
            None => {
                proof {
                    assert(matched_views(out@) =~= match_list(*m, query@, views.take(i + 1)));
                }
            },
        }
        i = i + 1;
    }
    proof {
        assert(views.take(views.len() as int) =~= views);
    }
    out
}

proof fn lemma_matched_wf_perm(a: Seq<MatchedItemView>, b: Seq<MatchedItemView>)
    requires
        a.to_multiset() == b.to_multiset(),
        matched_wf(a),
    ensures
        matched_wf(b),
{
    assert forall|k: int|
        0 <= k < b.len() implies {
        &&& ranges_wf(#[trigger] b[k].match_info.title_ranges, b[k].item.title)
        &&& (match b[k].item.subtitle {
            Some(t) => ranges_wf(b[k].match_info.subtitle_ranges, t),
            None => b[k].match_info.subtitle_ranges.len() == 0,
        })
    } by {
        assert(b.contains(b[k])) by {
            assert(0 <= k < b.len() && b[k] == b[k]);
        }
        vstd::seq_lib::to_multiset_contains::<MatchedItemView>(b, b[k]);
        vstd::seq_lib::to_multiset_contains::<MatchedItemView>(a, b[k]);
        assert(a.contains(b[k]));
        let n = choose|n: int| 0 <= n < a.len() && a[n] == b[k];
        assert(ranges_wf(a[n].match_info.title_ranges, a[n].item.title));
    }
}

/// Deduplicates a result batch by item id, later items replacing earlier
/// ones with the same id.
fn dedup_items_by_id(items: Vec<CommandPaletteItem>) -> (r: Vec<CommandPaletteItem>)
    ensures
        item_views(r@) == dedup_by_id(item_views(items@)),
        unique_ids(item_views(r@)),
{
    let ghost iv = item_views(items@);
    let mut out: Vec<CommandPaletteItem> = Vec::new();
    let mut i: usize = 0;
    proof {
        assert(item_views(out@) =~= dedup_by_id(iv.take(0)));
    }
    while i < items.len()
        invariant
            0 <= i <= items@.len(),
            iv == item_views(items@),
            item_views(out@) == dedup_by_id(iv.take(i as int)),
            unique_ids(item_views(out@)),
        decreases items@.len() - i,
    {
        let ghost cur = item_views(out@);
        proof {
            assert(iv.take(i + 1).drop_last() =~= iv.take(i as int));
            assert(iv.take(i + 1).last() == iv[i as int]);
            assert(iv[i as int] == items@[i as int]@);
        }
        match find_index_by_id(&out, &items[i].id) {
            Some(p) => {
                proof {
                    assert(cur[p as int].id == iv[i as int].id);
                    assert(contains_id(cur, iv[i as int].id)) by {
                        assert(0 <= p < cur.len() && cur[p as int].id == iv[i as int].id);
                    }
                }
                let ghost before = out@;
                let _ = out.remove(p);
                out.insert(p, items[i].clone());
                proof {
                    assert(out@ =~= before.update(p as int, out@[p as int]));
                    assert(out@[p as int]@ == iv[i as int]);
                    assert forall|k: int|
                        0 <= k < cur.len() implies item_views(out@)[k] == replace_by_id(
                        cur,
                        iv[i as int],
                    )[k] by {
                        if k != p {
                            assert(cur[k].id != cur[p as int].id);
                        }
                    }
                    assert(item_views(out@) =~= replace_by_id(cur, iv[i as int]));
                    assert(item_views(out@) =~= dedup_by_id(iv.take(i + 1)));
                    assert(unique_ids(item_views(out@)));
                }
            },
            None => {
                out.push(items[i].clone());
                proof {
                    assert(item_views(out@) =~= cur.push(iv[i as int]));
                    assert(item_views(out@) =~= dedup_by_id(iv.take(i + 1)));
                    assert forall|p: int, q: int|
                        0 <= p < q < item_views(out@).len() implies item_views(out@)[p].id
                        != item_views(out@)[q].id by {
                        if q == cur.len() as int {
                            assert(!contains_id(cur, iv[i as int].id));
                            assert(item_views(out@)[p] == cur[p]);
                        }
                    }
                }
            },
        }
        i = i + 1;
    }
    proof {
        assert(iv.take(iv.len() as int) =~= iv);
    }
    out
}

/// One palette session's state machine.
///
/// All mutations happen through the methods below; `matched_items`,
/// `matched_static_len` and `selected_index` are recomputed as
/// [`recompute_rel`] and [`selection_reset`] describe whenever the query or
/// the asynchronous results change.
pub struct CommandPaletteState<M: CommandMatcher> {
    /// The session configuration.
    pub config: CommandPaletteConfig,
    /// The matching strategy.
    pub matcher: M,
    /// The current query string.
    pub query: String,
    /// The static snapshot taken when the session started.
    pub static_items: Vec<CommandPaletteItem>,
    /// The most recent asynchronous results, unique by id.
    pub async_items: Vec<CommandPaletteItem>,
    /// The ranked, merged, truncated result list.
    pub matched_items: Vec<MatchedItem>,
    /// How many leading entries of `matched_items` came from the static set.
    pub matched_static_len: usize,
    /// The selected row, `None` only while the list is empty.
    pub selected_index: Option<usize>,
    /// Invalidates in-flight asynchronous queries when the query changes.
    pub query_generation: u64,
    /// The session instant before which asynchronous queries wait.
    pub reveal_deadline_ms: Option<u64>,
}

impl<M: CommandMatcher> CommandPaletteState<M> {
    /// Structural soundness: the selection is in bounds exactly when the list
    /// is non-empty, the static prefix length never exceeds the list, the
    /// asynchronous results are unique by id, every listed highlight range is
    /// well-formed, and the listed results are the ones [`recompute_rel`]
    /// prescribes for the current query and item sets.
    pub open spec fn wf(&self) -> bool {
        &&& self.matched_static_len <= self.matched_items@.len()
        &&& (match self.selected_index {
            Some(i) => (i as int) < self.matched_items@.len(),
            None => self.matched_items@.len() == 0,
        })
        &&& unique_ids(item_views(self.async_items@))
        &&& matched_wf(matched_views(self.matched_items@))
        &&& recompute_rel(
            self.matcher,
            self.query@,
            item_views(self.static_items@),
            item_views(self.async_items@),
            self.config.max_results as int,
            matched_views(self.matched_items@),
            self.matched_static_len as int,
        )
    }

    /// The displayed list is the one [`recompute_rel`] and
    /// [`selection_reset`] prescribe for the current query and item sets.
    pub open spec fn recomputed(&self) -> bool {
        &&& recompute_rel(
            self.matcher,
            self.query@,
            item_views(self.static_items@),
            item_views(self.async_items@),
            self.config.max_results as int,
            matched_views(self.matched_items@),
            self.matched_static_len as int,
        )
        &&& selection_reset(matched_views(self.matched_items@), self.selected_index)
    }

    fn update_matches(&mut self)
        requires
            unique_ids(item_views(old(self).async_items@)),
        ensures
            final(self).wf(),
            final(self).recomputed(),
            final(self).query == old(self).query,
            final(self).static_items == old(self).static_items,
            final(self).async_items == old(self).async_items,
            final(self).config == old(self).config,
            final(self).matcher == old(self).matcher,
            final(self).query_generation == old(self).query_generation,
            final(self).reveal_deadline_ms == old(self).reveal_deadline_ms,
    {
        let ghost sv = item_views(self.static_items@);
        let ghost av = item_views(self.async_items@);
        let ghost q = self.query@;
        let qn = self.query.as_str().unicode_len();
        if qn == 1 {
            self.matched_items = Vec::new();
            self.matched_static_len = 0;
            self.selected_index = None;
            proof {
                assert(matched_views(self.matched_items@) =~= Seq::<MatchedItemView>::empty());
            }
            return ;
        }
        let merged = build_merged(&self.static_items, &self.async_items);
        let extra = build_async_only(&self.static_items, &self.async_items);
        let mut ms = match_items_list(&self.matcher, self.query.as_str(), &merged);
        let mut ma = match_items_list(&self.matcher, self.query.as_str(), &extra);
        let ghost ms_spec = match_list(self.matcher, q, merged_statics(sv, av));
        let ghost ma_spec = match_list(self.matcher, q, async_only(sv, av));
        if !self.query.as_str().is_empty() {
            sort_matches(&mut ms);
            sort_matches(&mut ma);
            proof {
                lemma_matched_wf_perm(ms_spec, matched_views(ms@));
                lemma_matched_wf_perm(ma_spec, matched_views(ma@));
            }
        }
        let ghost ss = matched_views(ms@);
        let ghost aa = matched_views(ma@);
        proof {
            assert(is_ranking_of(ss, ms_spec, q));
            assert(is_ranking_of(aa, ma_spec, q));
        }
        let max = self.config.max_results;
        let static_limit = if ms.len() <= max {
            ms.len()
        } else {
            max
        };
        let async_limit = if ms.len() >= max {
            0
        } else {
            let rem = max - ms.len();
            if ma.len() <= rem {
                ma.len()
            } else {
                rem
            }
        };
        ms.truncate(static_limit);
        ma.truncate(async_limit);
        proof {
            assert(matched_views(ms@) =~= ss.take(static_limit as int));
            assert(matched_views(ma@) =~= aa.take(async_limit as int));
        }
        let mut out = ms;
        out.append(&mut ma);
        proof {
            assert(matched_views(out@) =~= ss.take(static_limit as int) + aa.take(
                async_limit as int,
            ));
        }
        let empty = out.len() == 0;
        self.matched_items = out;
        self.matched_static_len = static_limit;
        self.selected_index = if empty {
            None
        } else {
            Some(0)
        };
        proof {
            let matched = matched_views(self.matched_items@);
            assert(recompute_rel(
                self.matcher,
                q,
                sv,
                av,
                self.config.max_results as int,
                matched,
                self.matched_static_len as int,
            )) by {
                assert(is_ranking_of(ss, ms_spec, q) && is_ranking_of(aa, ma_spec, q));
                assert(matched == ss.take(static_limit as int) + aa.take(async_limit as int));
            }
            assert(matched_wf(matched)) by {
                assert forall|k: int|
                    0 <= k < matched.len() implies {
                    &&& ranges_wf(#[trigger] matched[k].match_info.title_ranges, matched[k].item.title)
                    &&& (match matched[k].item.subtitle {
                        Some(t) => ranges_wf(matched[k].match_info.subtitle_ranges, t),
                        None => matched[k].match_info.subtitle_ranges.len() == 0,
                    })
                } by {
                    if k < static_limit as int {
                        assert(matched[k] == ss[k]);
                        assert(ranges_wf(ss[k].match_info.title_ranges, ss[k].item.title));
                    } else {
                        let k2 = k - static_limit as int;
                        assert(matched[k] == aa[k2]);
                        assert(ranges_wf(aa[k2].match_info.title_ranges, aa[k2].item.title));
                    }
                }
            }
        }
    }
}

/// The wrapped successor of row `i` among `n` rows.
pub open spec fn wrap_next(i: int, n: int) -> int {
    if i + 1 >= n {
        0
    } else {
        i + 1
    }
}

/// The row `select_next` moves to.
pub open spec fn next_selection(sel: Option<usize>, n: int) -> int {
    match sel {
        None => 0,
        Some(i) => wrap_next(i as int, n),
    }
}

/// The row `select_prev` moves to.
pub open spec fn prev_selection(sel: Option<usize>, n: int) -> int {
    match sel {
        None => n - 1,
        Some(i) => if i == 0 {
            n - 1
        } else {
            i as int - 1
        },
    }
}

/// The delay before the asynchronous query for a request issued at `now_ms`:
/// whatever remains of the reveal deadline, floored at zero.
pub open spec fn async_delay(deadline: Option<u64>, now_ms: u64) -> int {
    match deadline {
        Some(d) => if d as int > now_ms as int {
            d as int - now_ms as int
        } else {
            0
        },
        None => 0,
    }
}

impl<M: CommandMatcher> CommandPaletteState<M> {
    /// Everything but the selection is the same in `post` as in `pre`.
    pub open spec fn same_but_selection(pre: Self, post: Self) -> bool {
        &&& post.config == pre.config
        &&& post.matcher == pre.matcher
        &&& post.query == pre.query
        &&& post.static_items == pre.static_items
        &&& post.async_items == pre.async_items
        &&& post.matched_items == pre.matched_items
        &&& post.matched_static_len == pre.matched_static_len
        &&& post.query_generation == pre.query_generation
        &&& post.reveal_deadline_ms == pre.reveal_deadline_ms
    }

    /// Opens a session: the empty query immediately matches the whole static
    /// snapshot.  `now_ms` is the caller's clock reading; unless reduced
    /// motion is on, asynchronous queries wait out a short reveal delay from
    /// this instant.
    pub fn new(
        config: CommandPaletteConfig,
        matcher: M,
        static_items: Vec<CommandPaletteItem>,
        reduced_motion: bool,
        now_ms: u64,
    ) -> (r: Self)
        requires
            now_ms + REVEAL_QUERY_DELAY_MS <= u64::MAX,
        ensures
            r.wf(),
            r.recomputed(),
            r.query@.len() == 0,
            r.static_items == static_items,
            r.async_items@.len() == 0,
            r.query_generation == 0,
            r.config == config,
            r.matcher == matcher,
            r.reveal_deadline_ms == (if reduced_motion {
                None::<u64>
            } else {
                Some((now_ms + REVEAL_QUERY_DELAY_MS) as u64)
            }),
    {
        let reveal_deadline_ms = if reduced_motion {
            None
        } else {
            Some(now_ms + REVEAL_QUERY_DELAY_MS)
        };
        let mut s = CommandPaletteState {
            config,
            matcher,
            query: String::new(),
            static_items,
            async_items: Vec::new(),
            matched_items: Vec::new(),
            matched_static_len: 0,
            selected_index: None,
            query_generation: 0,
            reveal_deadline_ms,
        };
        proof {
            assert(item_views(s.async_items@) =~= Seq::<ItemView>::empty());
            assert(matched_views(s.matched_items@) =~= Seq::<MatchedItemView>::empty());
        }
        s.update_matches();
        s
    }

    /// Replaces the query.  The result list is immediately recomputed from
    /// the static snapshot alone; pending asynchronous results are dropped
    /// and in-flight ones invalidated.  Returns the asynchronous query the
    /// caller should now schedule, or `None` when the query is unchanged or
    /// shorter than two characters.  The generation counter only grows, so a
    /// caller must stop changing the query once it reaches the 64-bit
    /// maximum; at one change per keystroke that point is never reached.
    pub fn set_query(&mut self, query: String, now_ms: u64) -> (r: Option<AsyncQueryRequest>)
        requires
            old(self).wf(),
            old(self).query_generation < u64::MAX,
        ensures
            final(self).wf(),
            old(self).query@ == query@ ==> *final(self) == *old(self) && r is None,
            old(self).query@ != query@ ==> {
                &&& final(self).query == query
                &&& final(self).query_generation == old(self).query_generation + 1
                &&& final(self).async_items@.len() == 0
                &&& final(self).static_items == old(self).static_items
                &&& final(self).config == old(self).config
                &&& final(self).matcher == old(self).matcher
                &&& final(self).reveal_deadline_ms == old(self).reveal_deadline_ms
                &&& final(self).recomputed()
                &&& (query@.len() < 2 ==> r is None)
                &&& (query@.len() >= 2 ==> (r matches Some(req)
                    && req.generation == final(self).query_generation
                    && req.delay_ms as int == async_delay(old(self).reveal_deadline_ms, now_ms)))
            },
    {
        if self.query == query {
            return None;
        }
        self.query = query;
        self.query_generation = self.query_generation + 1;
        self.async_items = Vec::new();
        proof {
            assert(item_views(self.async_items@) =~= Seq::<ItemView>::empty());
        }
        self.update_matches();
        let qn = self.query.as_str().unicode_len();
        if qn < 2 {
            return None;
        }
        let delay_ms = match self.reveal_deadline_ms {
            Some(d) => {
                if d > now_ms {
                    d - now_ms
                } else {
                    0
                }
            },
            None => 0,
        };
        Some(AsyncQueryRequest { generation: self.query_generation, delay_ms })
    }

    /// Applies one asynchronous completion.  A completion whose generation is
    /// no longer current is discarded without touching any state, whatever
    /// order completions arrive in; a current one replaces the asynchronous
    /// results (deduplicated by id) and recomputes the list.
    pub fn apply_async_results(&mut self, generation: u64, items: Vec<CommandPaletteItem>)
        requires
            old(self).wf(),
        ensures
            final(self).wf(),
            generation != old(self).query_generation ==> *final(self) == *old(self),
            generation == old(self).query_generation ==> {
                &&& item_views(final(self).async_items@) == dedup_by_id(item_views(items@))
                &&& final(self).query == old(self).query
                &&& final(self).static_items == old(self).static_items
                &&& final(self).config == old(self).config
                &&& final(self).matcher == old(self).matcher
                &&& final(self).query_generation == old(self).query_generation
                &&& final(self).reveal_deadline_ms == old(self).reveal_deadline_ms
                &&& final(self).recomputed()
            },
    {
        if generation != self.query_generation {
            return ;
        }
        self.async_items = dedup_items_by_id(items);
        self.update_matches();
    }

    /// Moves the selection up, wrapping from the first row to the last.
    pub fn select_prev(&mut self)
        requires
            old(self).wf(),
        ensures
            final(self).wf(),
            old(self).matched_items@.len() == 0 ==> *final(self) == *old(self),
            old(self).matched_items@.len() > 0 ==> Self::same_but_selection(*old(self), *final(self))
                && final(self).selected_index == Some(
                prev_selection(old(self).selected_index, old(self).matched_items@.len() as int) as usize,
            ),
    {
        if self.matched_items.len() == 0 {
            return ;
        }
        let n = self.matched_items.len();
        self.selected_index = Some(
            match self.selected_index {
                Some(i) => {
                    if i == 0 {
                        n - 1
                    } else {
                        i - 1
                    }
                },
                None => n - 1,
            },
        );
    }

    /// Moves the selection down, wrapping from the last row to the first.
    pub fn select_next(&mut self)
        requires
            old(self).wf(),
        ensures
            final(self).wf(),
            old(self).matched_items@.len() == 0 ==> *final(self) == *old(self),
            old(self).matched_items@.len() > 0 ==> Self::same_but_selection(*old(self), *final(self))
                && final(self).selected_index == Some(
                next_selection(old(self).selected_index, old(self).matched_items@.len() as int) as usize,
            ),
    {
        if self.matched_items.len() == 0 {
            return ;
        }
        let n = self.matched_items.len();
        self.selected_index = Some(
            match self.selected_index {
                Some(i) => {
                    if i >= n - 1 {
                        0
                    } else {
                        i + 1
                    }
                },
                None => 0,
            },
        );
    }

    /// Selects the row at `index`; an out-of-bounds index is ignored.
    pub fn select_index(&mut self, index: usize)
        requires
            old(self).wf(),
        ensures
            final(self).wf(),
            (index as int) < old(self).matched_items@.len() ==> Self::same_but_selection(
                *old(self),
                *final(self),
            ) && final(self).selected_index == Some(index),
            (index as int) >= old(self).matched_items@.len() ==> *final(self) == *old(self),
    {
        if index < self.matched_items.len() {
            self.selected_index = Some(index);
        }
    }

    /// Confirms the selection: yields a `Selected` event carrying a copy of
    /// the selected item, unless there is no selection or the item is
    /// disabled.
    pub fn confirm(&self) -> (r: Option<CommandPaletteEvent>)
        requires
            self.wf(),
        ensures
            (match self.selected_index {
                None => r is None,
                Some(i) => {
                    if matched_views(self.matched_items@)[i as int].item.disabled {
                        r is None
                    } else {
                        r matches Some(CommandPaletteEvent::Selected { item }) && item@
                            == matched_views(self.matched_items@)[i as int].item
                    }
                },
            }),
    {
        match self.selected_index {
            Some(i) => {
                let entry = &self.matched_items[i];
                if !entry.item.disabled {
                    Some(CommandPaletteEvent::Selected { item: entry.item.clone() })
                } else {
                    None
                }
            },
            None => None,
        }
    }

    /// Announces dismissal; the state itself does not change.
    pub fn dismiss(&self) -> (r: CommandPaletteEvent)
        ensures
            r matches CommandPaletteEvent::Dismissed,
    {
        CommandPaletteEvent::Dismissed
    }

    /// The currently selected entry, if any.
    pub fn selected_item(&self) -> (r: Option<&MatchedItem>)
        requires
            self.wf(),
        ensures
            (match self.selected_index {
                Some(i) => r matches Some(m) && m@ == matched_views(self.matched_items@)[i as int],
                None => r is None,
            }),
    {
        match self.selected_index {
            Some(i) => Some(&self.matched_items[i]),
            None => None,
        }
    }
}

/// `wrap_next` iterated `k` times from row zero.
pub open spec fn wrap_next_iter(k: nat, n: int) -> int
    decreases k,
{
    if k == 0 {
        0
    } else {
        wrap_next(wrap_next_iter((k - 1) as nat, n), n)
    }
}

proof fn lemma_wrap_next_iter_below(k: nat, n: int)
    requires
        n >= 1,
        k <= n,
    ensures
        wrap_next_iter(k, n) == if (k as int) < n {
            k as int
        } else {
            0
        },
    decreases k,
{
    if k > 0 {
        lemma_wrap_next_iter_below((k - 1) as nat, n);
    }
}

/// Selection wraps: stepping the selection forward once per row returns it
/// from the first row back to the first row, and stepping backward from the
/// first row lands on the last.
pub proof fn lemma_selection_wraps(n: int)
    requires
        n >= 1,
    ensures
        wrap_next_iter(n as nat, n) == 0,
        prev_selection(Some(0usize), n) == n - 1,
{
    lemma_wrap_next_iter_below(n as nat, n);
}

/// A single-scalar query shows nothing: in every session state whose query is
/// one Unicode scalar, the result list is empty and nothing is selected.
pub proof fn lemma_single_scalar_query_shows_nothing<M: CommandMatcher>(
    s: &CommandPaletteState<M>,
)
    requires
        s.wf(),
        s.query@.len() == 1,
    ensures
        s.matched_items@.len() == 0,
        s.selected_index is None,
{
    assert(matched_views(s.matched_items@).len() == 0);
}

/// Static results are never starved by asynchronous ones: the static list is
/// truncated only by the overall cap, and asynchronous matches fill no more
/// than the capacity the static matches leave free.
pub proof fn lemma_static_results_never_starved(ns: int, na: int, max_results: int)
    requires
        0 <= ns,
        0 <= na,
        0 <= max_results,
    ensures
        static_limit_of(ns, na, max_results) == if ns <= max_results {
            ns
        } else {
            max_results
        },
        ns >= max_results ==> async_limit_of(ns, na, max_results) == 0,
        async_limit_of(ns, na, max_results) == if ns >= max_results {
            0
        } else if na <= max_results - ns {
            na
        } else {
            max_results - ns
        },
{
}

} // verus!

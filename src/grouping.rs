//! Grouping a drained batch of events by series, normalised kind and season.
use vstd::prelude::*;
use crate::debounce::{
    base_generation, buffer_at, burst_ops, drain_result, lemma_burst_drains_once, run,
    EntryState, DEBOUNCE_WINDOW_MS,
};
use crate::discord::{
    aggregate, content_of, convert_group_to_webhook, event_rows, flat_rows, has_counted,
    has_episode, is_group_embed, lemma_rows_sorted_and_unique, renderable, DiscordWebhookBody,
};
use crate::sonarr::{
    key_at, key_lt, kind_rank, normalise, normalised, views, SonarrEventView, SonarrGroupKey,
    SonarrRequestBody,
};

verus! {

/// Whether one of the event's episodes carries the key.
pub open spec fn has_key(e: SonarrEventView, k: SonarrGroupKey) -> bool {
    exists|i: int| 0 <= i < e.episodes.len() && key_at(e, i) == k
}

/// Whether one of the first `n` episodes of the event carries the key.
pub open spec fn has_key_before(e: SonarrEventView, k: SonarrGroupKey, n: int) -> bool {
    exists|i: int| 0 <= i < n && key_at(e, i) == k
}

/// The copies of an event that its first `n` episodes put in the group with
/// key `k`: one normalised copy for each of those episodes that carries `k`.
pub open spec fn copies(e: SonarrEventView, k: SonarrGroupKey, n: int) -> Seq<SonarrEventView>
    decreases n,
{
    if n <= 0 {
        Seq::empty()
    } else {
        copies(e, k, n - 1) + if key_at(e, n - 1) == k {
            seq![normalised(e)]
        } else {
            Seq::empty()
        }
    }
}

/// The members of the group with key `k`: event after event in arrival order,
/// one normalised copy of the event for each of its episodes that carries `k`.
pub open spec fn members(evs: Seq<SonarrEventView>, k: SonarrGroupKey) -> Seq<SonarrEventView>
    decreases evs.len(),
{
    if evs.len() == 0 {
        Seq::empty()
    } else {
        members(evs.drop_last(), k) + copies(evs.last(), k, evs.last().episodes.len() as int)
    }
}

/// Whether one of the groups has key `k`.
pub open spec fn has_group(groups: Seq<(SonarrGroupKey, Vec<SonarrRequestBody>)>, k: SonarrGroupKey) -> bool {
    exists|i: int| 0 <= i < groups.len() && groups[i].0 == k
}

/// The groups of a batch: keys strictly ascending, each group holding exactly its
/// members, and a group for every key that some event carries.
pub open spec fn is_grouping(
    groups: Seq<(SonarrGroupKey, Vec<SonarrRequestBody>)>,
    evs: Seq<SonarrEventView>,
) -> bool {
    &&& forall|i: int, j: int| 0 <= i < j < groups.len() ==> key_lt(groups[i].0, groups[j].0)
    &&& forall|i: int| 0 <= i < groups.len() ==> views(#[trigger] groups[i].1@) == members(evs, groups[i].0)
    &&& forall|i: int| 0 <= i < groups.len() ==> (#[trigger] groups[i].1@).len() > 0
    &&& forall|k: SonarrGroupKey| #[trigger] members(evs, k).len() > 0 ==> has_group(groups, k)
}

proof fn lemma_key_order(a: SonarrGroupKey, b: SonarrGroupKey, c: SonarrGroupKey)
    ensures
        !key_lt(a, a),
        key_lt(a, b) ==> !key_lt(b, a),
        a != b && !key_lt(a, b) ==> key_lt(b, a),
        key_lt(a, b) && key_lt(b, c) ==> key_lt(a, c),
{
    assert(kind_rank(a.1) == kind_rank(b.1) ==> a.1 == b.1);
}

/// The copies an event puts in a group are all the normalised event, and there
/// are some only when one of the episodes looked at carries the group's key.
proof fn lemma_copies(e: SonarrEventView, k: SonarrGroupKey, n: int)
    requires
        0 <= n,
    ensures
        copies(e, k, n).len() > 0 ==> has_key_before(e, k, n),
        forall|x: int| 0 <= x < copies(e, k, n).len() ==> #[trigger] copies(e, k, n)[x] == normalised(e),
    decreases n,
{
    if n > 0 {
        lemma_copies(e, k, n - 1);
        if copies(e, k, n - 1).len() > 0 {
            let w = choose|w: int| 0 <= w < n - 1 && key_at(e, w) == k;
            assert(0 <= w < n && key_at(e, w) == k);
        }
        if key_at(e, n - 1) == k {
            assert(0 <= n - 1 < n && key_at(e, n - 1) == k);
        }
        assert forall|x: int| 0 <= x < copies(e, k, n).len() implies #[trigger] copies(e, k, n)[x]
            == normalised(e) by {
            if x < copies(e, k, n - 1).len() {
                assert(copies(e, k, n)[x] == copies(e, k, n - 1)[x]);
            }
        }
    }
}

/// Adding one episode's copy keeps a group for every key that had one, and for
/// every key carried so far.
proof fn lemma_keys_still_grouped(
    prev: Seq<SonarrEventView>,
    e: SonarrEventView,
    j: int,
    before: Seq<(SonarrGroupKey, Vec<SonarrRequestBody>)>,
    after: Seq<(SonarrGroupKey, Vec<SonarrRequestBody>)>,
)
    requires
        0 <= j < e.episodes.len(),
        forall|k: SonarrGroupKey|
            members(prev, k).len() > 0 || has_key_before(e, k, j) ==> has_group(before, k),
        forall|k: SonarrGroupKey| has_group(before, k) ==> has_group(after, k),
        has_group(after, key_at(e, j)),
    ensures
        forall|k: SonarrGroupKey|
            members(prev, k).len() > 0 || has_key_before(e, k, j + 1) ==> has_group(after, k),
{
    assert forall|k: SonarrGroupKey|
        members(prev, k).len() > 0 || has_key_before(e, k, j + 1) implies has_group(after, k) by {
        if k != key_at(e, j) && has_key_before(e, k, j + 1) {
            let w = choose|w: int| 0 <= w < j + 1 && key_at(e, w) == k;
            assert(w != j);
            assert(has_key_before(e, k, j));
        }
        if k != key_at(e, j) {
            assert(has_group(before, k));
        }
    }
}

/// The position at which `key` stands, or would stand, among keys in ascending order.
fn find_group(groups: &Vec<(SonarrGroupKey, Vec<SonarrRequestBody>)>, key: SonarrGroupKey) -> (p:
    usize)
    ensures
        p <= groups@.len(),
        forall|i: int| 0 <= i < p ==> key_lt(groups@[i].0, key),
        p < groups@.len() ==> !key_lt(groups@[p as int].0, key),
{
    let mut p: usize = 0;
    while p < groups.len() && groups[p].0.less_than(&key)
        invariant
            p <= groups@.len(),
            forall|i: int| 0 <= i < p ==> key_lt(groups@[i].0, key),
        decreases groups@.len() - p,
    {
        p = p + 1;
    }
    p
}

/// Groups a batch by (series id, normalised kind, season), taking the batch and
/// leaving the queue empty. Each episode of an event puts one normalised copy
/// of the event in the group of its key; groups come in ascending key order.
pub fn group_sonarr_requests(queue: &mut Vec<SonarrRequestBody>) -> (r: Vec<
    (SonarrGroupKey, Vec<SonarrRequestBody>),
>)
    ensures
        final(queue)@.len() == 0,
        is_grouping(r@, views(old(queue)@)),
{
    let mut events: Vec<SonarrRequestBody> = Vec::new();
    std::mem::swap(queue, &mut events);
    let ghost evs = views(events@);
    let mut groups: Vec<(SonarrGroupKey, Vec<SonarrRequestBody>)> = Vec::new();
    let mut n: usize = 0;
    proof {
        assert(evs.take(0) =~= Seq::<SonarrEventView>::empty());
    }
    while n < events.len()
        invariant
            n <= events@.len(),
            evs == views(events@),
            is_grouping(groups@, evs.take(n as int)),
        decreases events@.len() - n,
    {
        let ghost prev = evs.take(n as int);
        let e = &events[n];
        let ne = normalise(e.clone());
        let mut j: usize = 0;
        proof {
            assert forall|i: int| 0 <= i < groups@.len() implies views(#[trigger] groups@[i].1@)
                == members(prev, groups@[i].0) + copies(e@, groups@[i].0, 0) by {
                assert(members(prev, groups@[i].0) + copies(e@, groups@[i].0, 0) =~= members(
                    prev,
                    groups@[i].0,
                ));
            }
        }
        while j < e.episodes.len()
            invariant
                j <= e@.episodes.len(),
                ne@ == normalised(e@),
                forall|a: int, b: int|
                    0 <= a < b < groups@.len() ==> key_lt(groups@[a].0, groups@[b].0),
                forall|i: int| 0 <= i < groups@.len() ==> (#[trigger] groups@[i].1@).len() > 0,
                forall|i: int|
                    0 <= i < groups@.len() ==> views(#[trigger] groups@[i].1@) == members(
                        prev,
                        groups@[i].0,
                    ) + copies(e@, groups@[i].0, j as int),
                forall|k: SonarrGroupKey|
                    members(prev, k).len() > 0 || has_key_before(e@, k, j as int) ==> has_group(
                        groups@,
                        k,
                    ),
            decreases e@.episodes.len() - j,
        {
            let key = SonarrGroupKey::of_episode(e, j);
            let ghost before = groups@;
            let p = find_group(&groups, key);
            if p < groups.len() && groups[p].0 == key {
                let (k, mut members_vec) = groups.remove(p);
                members_vec.push(ne.clone());
                groups.insert(p, (k, members_vec));
                proof {
                    assert forall|i: int| 0 <= i < groups@.len() && i != p implies groups@[i]
                        == before[i] by {}
                    assert forall|i: int| 0 <= i < groups@.len() implies views(
                        #[trigger] groups@[i].1@,
                    ) == members(prev, groups@[i].0) + copies(e@, groups@[i].0, j + 1) by {
                        if i == p {
                            assert(views(groups@[i].1@) =~= views(before[i].1@).push(normalised(e@)));
                            assert(members(prev, key) + copies(e@, key, j + 1) =~= (members(prev, key)
                                + copies(e@, key, j as int)).push(normalised(e@)));
                        } else {
                            assert(copies(e@, groups@[i].0, j + 1) =~= copies(
                                e@,
                                groups@[i].0,
                                j as int,
                            ));
                        }
                    }
                    assert forall|k2: SonarrGroupKey| has_group(before, k2) implies has_group(
                        groups@,
                        k2,
                    ) by {
                        let w = choose|w: int| 0 <= w < before.len() && before[w].0 == k2;
                        assert(groups@[w].0 == k2);
                    }
                    assert(groups@[p as int].0 == key);
                    lemma_keys_still_grouped(prev, e@, j as int, before, groups@);
                }
            } else {
                let mut fresh: Vec<SonarrRequestBody> = Vec::new();
                fresh.push(ne.clone());
                groups.insert(p, (key, fresh));
                proof {
                    assert(!has_group(before, key)) by {
                        if has_group(before, key) {
                            let w = choose|w: int| 0 <= w < before.len() && before[w].0 == key;
                            lemma_key_order(before[w].0, key, key);
                            if w > p {
                                lemma_key_order(before[p as int].0, before[w].0, key);
                                lemma_key_order(key, before[p as int].0, before[w].0);
                            }
                        }
                    }
                    lemma_copies(e@, key, j as int);
                    assert(members(prev, key) + copies(e@, key, j + 1) =~= seq![normalised(e@)]);
                    assert(views(groups@[p as int].1@) =~= seq![normalised(e@)]);
                    assert forall|a: int, b: int|
                        0 <= a < b < groups@.len() implies key_lt(groups@[a].0, groups@[b].0) by {
                        if p < before.len() {
                            lemma_key_order(key, before[p as int].0, before[p as int].0);
                            lemma_key_order(before[p as int].0, key, key);
                        }
                        if a < p && b > p {
                            lemma_key_order(groups@[a].0, key, groups@[b].0);
                        } else if a == p && b > p + 1 {
                            lemma_key_order(key, before[p as int].0, groups@[b].0);
                        }
                    }
                    assert forall|i: int| 0 <= i < groups@.len() implies views(
                        #[trigger] groups@[i].1@,
                    ) == members(prev, groups@[i].0) + copies(e@, groups@[i].0, j + 1) by {
                        assert(groups@[i].1@.len() > 0);
                        if i != p {
                            let q = if i < p {
                                i
                            } else {
                                i - 1
                            };
                            assert(groups@[i] == before[q]);
                            assert(before[q].0 != key) by {
                                assert(has_group(before, before[q].0));
                            }
                            assert(copies(e@, groups@[i].0, j + 1) =~= copies(
                                e@,
                                groups@[i].0,
                                j as int,
                            ));
                        }
                    }
                    assert forall|k2: SonarrGroupKey| has_group(before, k2) implies has_group(
                        groups@,
                        k2,
                    ) by {
                        let w = choose|w: int| 0 <= w < before.len() && before[w].0 == k2;
                        if w < p {
                            assert(groups@[w].0 == k2);
                        } else {
                            assert(groups@[w + 1].0 == k2);
                        }
                    }
                    assert(groups@[p as int].0 == key);
                    lemma_keys_still_grouped(prev, e@, j as int, before, groups@);
                }
            }
            j = j + 1;
        }
        proof {
            let next = evs.take(n + 1);
            assert(next.drop_last() =~= prev);
            assert(next.last() == e@);
            assert forall|i: int| 0 <= i < groups@.len() implies (#[trigger] groups@[i].1@).len()
                > 0 by {}
            assert forall|k: SonarrGroupKey| #[trigger] members(next, k).len() > 0 implies has_group(
                groups@,
                k,
            ) by {
                lemma_copies(e@, k, e@.episodes.len() as int);
            }
        }
        n = n + 1;
    }
    assert(evs.take(n as int) =~= evs);
    groups
}

/// The (event, episode index) pairs of a batch, event after event, episode after episode.
pub open spec fn episode_pairs(evs: Seq<SonarrEventView>) -> Seq<(SonarrEventView, int)>
    decreases evs.len(),
{
    if evs.len() == 0 {
        Seq::empty()
    } else {
        episode_pairs(evs.drop_last()) + Seq::new(
            evs.last().episodes.len(),
            |i: int| (evs.last(), i),
        )
    }
}

/// Whether the episode of an (event, episode index) pair carries the key.
pub open spec fn carries(k: SonarrGroupKey) -> spec_fn((SonarrEventView, int)) -> bool {
    |p: (SonarrEventView, int)| key_at(p.0, p.1) == k
}

proof fn lemma_copies_are_pairs(e: SonarrEventView, k: SonarrGroupKey, n: nat)
    ensures
        copies(e, k, n as int) == Seq::new(n, |i: int| (e, i)).filter(carries(k)).map_values(
            |p: (SonarrEventView, int)| normalised(p.0),
        ),
    decreases n,
{
    reveal(Seq::filter);
    let s = Seq::new(n, |i: int| (e, i));
    if n == 0 {
        assert(s.filter(carries(k)).map_values(|p: (SonarrEventView, int)| normalised(p.0))
            =~= Seq::<SonarrEventView>::empty());
    } else {
        let m = (n - 1) as nat;
        lemma_copies_are_pairs(e, k, m);
        let t = Seq::new(m, |i: int| (e, i));
        assert(s.drop_last() =~= t);
        assert(s.last() == (e, n - 1));
        let ft = t.filter(carries(k));
        if key_at(e, n - 1) == k {
            assert(s.filter(carries(k)) == ft.push((e, n - 1)));
            assert(ft.push((e, n - 1)).map_values(|p: (SonarrEventView, int)| normalised(p.0))
                =~= ft.map_values(|p: (SonarrEventView, int)| normalised(p.0)) + seq![
                normalised(e),
            ]);
        } else {
            assert(s.filter(carries(k)) == ft);
            assert(copies(e, k, n as int) =~= copies(e, k, m as int));
        }
    }
}

/// Each (event, episode) pair of a batch puts exactly one normalised copy of
/// its event into exactly one group, the group of that episode's key: the
/// members of the group with key `k` are the pairs carrying `k`, in order.
pub proof fn lemma_members_are_pairs_with_key(evs: Seq<SonarrEventView>, k: SonarrGroupKey)
    ensures
        members(evs, k) == episode_pairs(evs).filter(carries(k)).map_values(
            |p: (SonarrEventView, int)| normalised(p.0),
        ),
    decreases evs.len(),
{
    if evs.len() == 0 {
        reveal(Seq::filter);
        assert(episode_pairs(evs).filter(carries(k)).map_values(
            |p: (SonarrEventView, int)| normalised(p.0),
        ) =~= Seq::<SonarrEventView>::empty());
    } else {
        let e = evs.last();
        let a = episode_pairs(evs.drop_last());
        let b = Seq::new(e.episodes.len(), |i: int| (e, i));
        lemma_members_are_pairs_with_key(evs.drop_last(), k);
        lemma_copies_are_pairs(e, k, e.episodes.len());
        Seq::filter_distributes_over_add(a, b, carries(k));
        assert((a.filter(carries(k)) + b.filter(carries(k))).map_values(
            |p: (SonarrEventView, int)| normalised(p.0),
        ) =~= a.filter(carries(k)).map_values(|p: (SonarrEventView, int)| normalised(p.0))
            + b.filter(carries(k)).map_values(|p: (SonarrEventView, int)| normalised(p.0)));
    }
}

/// No event of a batch is lost to grouping: each episode of each event puts a
/// copy of the normalised event in the group of that episode's key.
pub proof fn lemma_event_in_its_groups(evs: Seq<SonarrEventView>, i: int, j: int)
    requires
        0 <= i < evs.len(),
        0 <= j < evs[i].episodes.len(),
    ensures
        members(evs, key_at(evs[i], j)).contains(normalised(evs[i])),
    decreases evs.len(),
{
    let k = key_at(evs[i], j);
    if i == evs.len() - 1 {
        let e = evs.last();
        lemma_copies_contain(e, k, e.episodes.len() as int, j);
        let c = copies(e, k, e.episodes.len() as int);
        let x = choose|x: int| 0 <= x < c.len() && c[x] == normalised(e);
        let m = members(evs, k);
        assert(m[members(evs.drop_last(), k).len() + x] == c[x]);
    } else {
        lemma_event_in_its_groups(evs.drop_last(), i, j);
        let prev = members(evs.drop_last(), k);
        let x = choose|x: int| 0 <= x < prev.len() && prev[x] == normalised(evs[i]);
        assert(members(evs, k)[x] == prev[x]);
    }
}

proof fn lemma_copies_contain(e: SonarrEventView, k: SonarrGroupKey, n: int, j: int)
    requires
        0 <= j < n,
        key_at(e, j) == k,
    ensures
        copies(e, k, n).contains(normalised(e)),
    decreases n,
{
    if j < n - 1 {
        lemma_copies_contain(e, k, n - 1, j);
        let c = copies(e, k, n - 1);
        let x = choose|x: int| 0 <= x < c.len() && c[x] == normalised(e);
        assert(copies(e, k, n)[x] == c[x]);
    } else {
        let c = copies(e, k, n);
        assert(c[c.len() - 1] == normalised(e));
    }
}

/// Every member of a group references at least one episode and carries the group's key.
pub proof fn lemma_members_carry_key(evs: Seq<SonarrEventView>, k: SonarrGroupKey)
    ensures
        forall|i: int|
            0 <= i < members(evs, k).len() ==> #[trigger] members(evs, k)[i].episodes.len() > 0
                && has_key(members(evs, k)[i], k),
    decreases evs.len(),
{
    if evs.len() > 0 {
        lemma_members_carry_key(evs.drop_last(), k);
        let e = evs.last();
        let n = e.episodes.len() as int;
        lemma_copies(e, k, n);
        let prev = members(evs.drop_last(), k);
        let c = copies(e, k, n);
        assert forall|i: int| 0 <= i < members(evs, k).len() implies #[trigger] members(
            evs,
            k,
        )[i].episodes.len() > 0 && has_key(members(evs, k)[i], k) by {
            if i < prev.len() {
                assert(members(evs, k)[i] == prev[i]);
            } else {
                assert(members(evs, k)[i] == c[i - prev.len()]);
                let w = choose|w: int| 0 <= w < n && key_at(e, w) == k;
                assert(key_at(normalised(e), w) == k);
            }
        }
    }
}

pub open spec fn is_batch_rendering(
    out: Seq<(SonarrGroupKey, DiscordWebhookBody)>,
    evs: Seq<SonarrEventView>,
) -> bool {
    &&& forall|i: int, j: int| 0 <= i < j < out.len() ==> key_lt(out[i].0, out[j].0)
    &&& forall|k: SonarrGroupKey|
        members(evs, k).len() > 0 <==> exists|i: int| 0 <= i < out.len() && out[i].0 == k
    &&& forall|i: int|
        0 <= i < out.len() ==> {
            let group = members(evs, #[trigger] out[i].0);
            &&& out[i].1.content@ == content_of(group)
            &&& out[i].1.embeds@.len() == 1
            &&& is_group_embed(out[i].1.embeds@[0], group)
        }
}

/// Groups a drained batch and renders one message per group, in ascending key order.
pub fn render_batch(queue: Vec<SonarrRequestBody>) -> (r: Vec<(SonarrGroupKey, DiscordWebhookBody)>)
    ensures
        is_batch_rendering(r@, views(queue@)),
{
    let ghost evs = views(queue@);
    let mut queue = queue;
    let groups = group_sonarr_requests(&mut queue);
    let mut out: Vec<(SonarrGroupKey, DiscordWebhookBody)> = Vec::new();
    let mut i: usize = 0;
    while i < groups.len()
        invariant
            i <= groups@.len(),
            is_grouping(groups@, evs),
            out@.len() == i,
            forall|a: int| 0 <= a < i ==> (#[trigger] out@[a]).0 == groups@[a].0,
            forall|a: int|
                0 <= a < i ==> {
                    let group = members(evs, #[trigger] out@[a].0);
                    &&& out@[a].1.content@ == content_of(group)
                    &&& out@[a].1.embeds@.len() == 1
                    &&& is_group_embed(out@[a].1.embeds@[0], group)
                },
        decreases groups@.len() - i,
    {
        let key = groups[i].0;
        proof {
            lemma_members_carry_key(evs, key);
            assert(views(groups@[i as int].1@) == members(evs, key));
            assert(groups@[i as int].1@.len() > 0);
            assert(renderable(views(groups@[i as int].1@)));
        }
        let body = convert_group_to_webhook(groups[i].1.as_slice());
        out.push((key, body));
        i = i + 1;
    }
    proof {
        assert forall|k: SonarrGroupKey|
            (exists|a: int| 0 <= a < out@.len() && out@[a].0 == k) implies members(evs, k).len()
            > 0 by {
            let a = choose|a: int| 0 <= a < out@.len() && out@[a].0 == k;
            assert(views(groups@[a].1@) == members(evs, k));
            assert(groups@[a].1@.len() > 0);
        }
        assert forall|k: SonarrGroupKey| members(evs, k).len() > 0 implies exists|a: int|
            0 <= a < out@.len() && out@[a].0 == k by {
            let a = choose|a: int| 0 <= a < groups@.len() && groups@[a].0 == k;
            assert(out@[a].0 == k);
        }
    }
    out
}

/// Whether some episode of some event of the batch is (season, episode).
pub open spec fn episode_in_batch(evs: Seq<SonarrEventView>, season: u64, episode: u64) -> bool {
    exists|i: int, j: int|
        0 <= i < evs.len() && 0 <= j < evs[i].episodes.len() && evs[i].episodes[j].season_number
            == season && evs[i].episodes[j].episode_number == episode
}

/// Whether a rendered batch has a message for key `k` whose description has a
/// row for (season, episode).
pub open spec fn row_shown(
    out: Seq<(SonarrGroupKey, DiscordWebhookBody)>,
    evs: Seq<SonarrEventView>,
    k: SonarrGroupKey,
    season: u64,
    episode: u64,
) -> bool {
    (exists|m: int| 0 <= m < out.len() && out[m].0 == k) && has_counted(
        aggregate(flat_rows(members(evs, k))),
        season,
        episode,
    )
}

proof fn lemma_member_rows(group: Seq<SonarrEventView>, t: int, j: int)
    requires
        0 <= t < group.len(),
        0 <= j < group[t].episodes.len(),
    ensures
        has_episode(
            flat_rows(group),
            group[t].episodes[j].season_number,
            group[t].episodes[j].episode_number,
        ),
    decreases group.len(),
{
    let prev = flat_rows(group.drop_last());
    if t == group.len() - 1 {
        let r = event_rows(group.last());
        assert(flat_rows(group)[prev.len() + j] == r[j]);
    } else {
        lemma_member_rows(group.drop_last(), t, j);
        let w = choose|w: int|
            0 <= w < prev.len() && prev[w].season == group[t].episodes[j].season_number
                && prev[w].episode == group[t].episodes[j].episode_number;
        assert(flat_rows(group)[w] == prev[w]);
    }
}

proof fn lemma_rows_come_from_members(group: Seq<SonarrEventView>, season: u64, episode: u64)
    requires
        has_episode(flat_rows(group), season, episode),
    ensures
        exists|t: int, j: int|
            0 <= t < group.len() && 0 <= j < group[t].episodes.len()
                && group[t].episodes[j].season_number == season
                && group[t].episodes[j].episode_number == episode,
    decreases group.len(),
{
    let prev = flat_rows(group.drop_last());
    let w = choose|w: int|
        0 <= w < flat_rows(group).len() && flat_rows(group)[w].season == season && flat_rows(
            group,
        )[w].episode == episode;
    if w < prev.len() {
        assert(prev[w] == flat_rows(group)[w]);
        lemma_rows_come_from_members(group.drop_last(), season, episode);
        let (t, j) = choose|t: int, j: int|
            0 <= t < group.drop_last().len() && 0 <= j < group.drop_last()[t].episodes.len()
                && group.drop_last()[t].episodes[j].season_number == season
                && group.drop_last()[t].episodes[j].episode_number == episode;
        assert(group[t] == group.drop_last()[t]);
    } else {
        let t = group.len() - 1;
        let j = w - prev.len();
        assert(flat_rows(group)[w] == event_rows(group.last())[j]);
        assert(0 <= t < group.len() && 0 <= j < group[t].episodes.len()
            && group[t].episodes[j].season_number == season
            && group[t].episodes[j].episode_number == episode);
    }
}

proof fn lemma_members_from_batch(evs: Seq<SonarrEventView>, k: SonarrGroupKey)
    ensures
        forall|t: int|
            0 <= t < members(evs, k).len() ==> exists|i: int|
                0 <= i < evs.len() && #[trigger] members(evs, k)[t] == normalised(evs[i]),
    decreases evs.len(),
{
    if evs.len() > 0 {
        let prev = members(evs.drop_last(), k);
        let e = evs.last();
        lemma_members_from_batch(evs.drop_last(), k);
        lemma_copies(e, k, e.episodes.len() as int);
        assert forall|t: int| 0 <= t < members(evs, k).len() implies exists|i: int|
            0 <= i < evs.len() && #[trigger] members(evs, k)[t] == normalised(evs[i]) by {
            if t < prev.len() {
                assert(members(evs, k)[t] == prev[t]);
                let i = choose|i: int|
                    0 <= i < evs.drop_last().len() && prev[t] == normalised(evs.drop_last()[i]);
                assert(evs[i] == evs.drop_last()[i]);
            } else {
                assert(members(evs, k)[t] == copies(e, k, e.episodes.len() as int)[t - prev.len()]);
                assert(evs[evs.len() - 1] == e);
            }
        }
    }
}

/// Nothing is lost or invented between a batch and its messages: every episode
/// of every event has a row in the message of its key, and every row of every
/// message is an episode of some event of the batch.
pub proof fn lemma_rendering_covers_batch(
    out: Seq<(SonarrGroupKey, DiscordWebhookBody)>,
    evs: Seq<SonarrEventView>,
)
    requires
        is_batch_rendering(out, evs),
    ensures
        forall|i: int, j: int|
            0 <= i < evs.len() && 0 <= j < evs[i].episodes.len() ==> #[trigger] row_shown(
                out,
                evs,
                key_at(evs[i], j),
                evs[i].episodes[j].season_number,
                evs[i].episodes[j].episode_number,
            ),
        forall|m: int, x: int|
            0 <= m < out.len() && 0 <= x < aggregate(flat_rows(members(evs, out[m].0))).len()
                ==> episode_in_batch(
                evs,
                #[trigger] aggregate(flat_rows(members(evs, out[m].0)))[x].season,
                aggregate(flat_rows(members(evs, out[m].0)))[x].episode,
            ),
{
    assert forall|i: int, j: int| 0 <= i < evs.len() && 0 <= j < evs[i].episodes.len() implies #[trigger] row_shown(
        out,
        evs,
        key_at(evs[i], j),
        evs[i].episodes[j].season_number,
        evs[i].episodes[j].episode_number,
    ) by {
        let k = key_at(evs[i], j);
        lemma_event_in_its_groups(evs, i, j);
        let g = members(evs, k);
        let t = choose|t: int| 0 <= t < g.len() && g[t] == normalised(evs[i]);
        assert(g.len() > 0);
        lemma_member_rows(g, t, j);
        lemma_rows_sorted_and_unique(g);
    }
    assert forall|m: int, x: int|
        0 <= m < out.len() && 0 <= x < aggregate(flat_rows(members(evs, out[m].0))).len() implies episode_in_batch(
        evs,
        #[trigger] aggregate(flat_rows(members(evs, out[m].0)))[x].season,
        aggregate(flat_rows(members(evs, out[m].0)))[x].episode,
    ) by {
        let g = members(evs, out[m].0);
        let row = aggregate(flat_rows(g))[x];
        lemma_rows_sorted_and_unique(g);
        lemma_rows_come_from_members(g, row.season, row.episode);
        let (t, j) = choose|t: int, j: int|
            0 <= t < g.len() && 0 <= j < g[t].episodes.len() && g[t].episodes[j].season_number
                == row.season && g[t].episodes[j].episode_number == row.episode;
        lemma_members_from_batch(evs, out[m].0);
        let i = choose|i: int| 0 <= i < evs.len() && g[t] == normalised(evs[i]);
        assert(evs[i].episodes[j] == g[t].episodes[j]);
    }
}

/// No loss under debounce, end to end: for events reaching one path less than a
/// debounce window apart, the last armed task drains exactly those events, and
/// the messages rendered from that batch show a row for every episode of every
/// event, in the message of the episode's key, and no row that is not one of
/// those episodes.
pub proof fn lemma_burst_delivers_every_episode(
    m: Map<Seq<char>, EntryState>,
    p: Seq<char>,
    evs: Seq<SonarrEventView>,
    times: Seq<u64>,
    out: Seq<(SonarrGroupKey, DiscordWebhookBody)>,
)
    requires
        evs.len() == times.len() > 0,
        buffer_at(m, p).len() == 0,
        base_generation(m, p) + evs.len() <= u64::MAX,
        forall|i: int| 0 <= i < times.len() ==> times[i] <= u64::MAX - DEBOUNCE_WINDOW_MS,
        forall|i: int|
            0 <= i < times.len() - 1 ==> times[i] <= #[trigger] times[i + 1] < times[i]
                + DEBOUNCE_WINDOW_MS,
        is_batch_rendering(out, evs),
    ensures
        drain_result(
            run(m, burst_ops(p, evs, times, evs.len())),
            p,
            (base_generation(m, p) + evs.len()) as u64,
        ) == Some(evs),
        forall|i: int, j: int|
            0 <= i < evs.len() && 0 <= j < evs[i].episodes.len() ==> #[trigger] row_shown(
                out,
                evs,
                key_at(evs[i], j),
                evs[i].episodes[j].season_number,
                evs[i].episodes[j].episode_number,
            ),
        forall|x: int, y: int|
            0 <= x < out.len() && 0 <= y < aggregate(flat_rows(members(evs, out[x].0))).len()
                ==> episode_in_batch(
                evs,
                #[trigger] aggregate(flat_rows(members(evs, out[x].0)))[y].season,
                aggregate(flat_rows(members(evs, out[x].0)))[y].episode,
            ),
{
    lemma_burst_drains_once(m, p, evs, times);
    lemma_rendering_covers_batch(out, evs);
}

} // verus!

//! Rendering a group of events into one outbound chat message.
use vstd::prelude::*;
use crate::sonarr::{
    effective_kind, views, SonarrEventType, SonarrEventView, SonarrRequestBody,
};
use crate::text::{decimal, push_decimal, push_two_digits, two_digits};

verus! {

/// The chat platform a message is written for.
#[derive(PartialEq, Eq, Structural, Clone, Copy, Debug)]
pub enum HBOutput {
    Matrix,
    Discord,
}

/// The embed of an outbound message: title, colour, description and kind.
pub struct Embed {
    pub title: Option<String>,
    pub color: Option<u32>,
    pub description: Option<String>,
    pub kind: String,
}

/// The body of an outbound message.
pub struct DiscordWebhookBody {
    pub content: String,
    pub embeds: Vec<Embed>,
}

/// An outbound message with its destination.
pub struct DiscordWebhook {
    pub url: String,
    pub body: DiscordWebhookBody,
}

impl DiscordWebhook {
    pub fn new(url: String, body: DiscordWebhookBody) -> (r: Self)
        ensures
            r.url == url,
            r.body == body,
    {
        DiscordWebhook { url, body }
    }
}

/// One description row before aggregation.
pub ghost struct Row {
    pub season: u64,
    pub episode: u64,
    pub title: Seq<char>,
    pub quality: Seq<char>,
}

/// One description row after aggregation, with how often its episode occurred.
pub ghost struct CountedRow {
    pub season: u64,
    pub episode: u64,
    pub title: Seq<char>,
    pub quality: Seq<char>,
    pub count: u64,
}

/// An aggregated description row.
pub struct EpisodeRow {
    pub season_number: u64,
    pub episode_number: u64,
    pub title: String,
    pub quality: String,
    pub count: u64,
}

impl View for EpisodeRow {
    type V = CountedRow;

    open spec fn view(&self) -> CountedRow {
        CountedRow {
            season: self.season_number,
            episode: self.episode_number,
            title: self.title@,
            quality: self.quality@,
            count: self.count,
        }
    }
}

/// The quality label of an event: the episode file's, else the release's, else `None`.
pub open spec fn quality_of(e: SonarrEventView) -> Seq<char> {
    match e.episode_file {
        Some(f) => f.quality@,
        None => match e.release {
            Some(r) => match r.quality {
                Some(q) => q@,
                None => "None"@,
            },
            None => "None"@,
        },
    }
}

/// The rows an event contributes: one per episode it references, in order.
pub open spec fn event_rows(e: SonarrEventView) -> Seq<Row> {
    e.episodes.map_values(
        |ep: crate::sonarr::SonarrEpisode|
            Row {
                season: ep.season_number,
                episode: ep.episode_number,
                title: ep.title@,
                quality: quality_of(e),
            },
    )
}

/// The rows of a sequence of events, event after event.
pub open spec fn flat_rows(evs: Seq<SonarrEventView>) -> Seq<Row>
    decreases evs.len(),
{
    if evs.len() == 0 {
        Seq::empty()
    } else {
        flat_rows(evs.drop_last()) + event_rows(evs.last())
    }
}

/// Order on episodes: by season, then by episode number.
pub open spec fn episode_lt(s1: u64, e1: u64, s2: u64, e2: u64) -> bool {
    s1 < s2 || (s1 == s2 && e1 < e2)
}

pub open spec fn counted(r: Row) -> CountedRow {
    CountedRow { season: r.season, episode: r.episode, title: r.title, quality: r.quality, count: 1 }
}

pub open spec fn incremented(c: CountedRow) -> CountedRow {
    CountedRow { count: if c.count < u64::MAX { (c.count + 1) as u64 } else { c.count }, ..c }
}

/// Adds one row to rows ordered by episode: a row of an episode already present
/// raises its count and keeps the first title and quality; a new episode is
/// inserted in order.
pub open spec fn add_row(acc: Seq<CountedRow>, r: Row) -> Seq<CountedRow>
    decreases acc.len(),
{
    if acc.len() == 0 {
        seq![counted(r)]
    } else if episode_lt(r.season, r.episode, acc[0].season, acc[0].episode) {
        seq![counted(r)] + acc
    } else if r.season == acc[0].season && r.episode == acc[0].episode {
        seq![incremented(acc[0])] + acc.drop_first()
    } else {
        seq![acc[0]] + add_row(acc.drop_first(), r)
    }
}

/// The aggregated, ordered rows of a sequence of rows.
pub open spec fn aggregate(rows: Seq<Row>) -> Seq<CountedRow>
    decreases rows.len(),
{
    if rows.len() == 0 {
        Seq::empty()
    } else {
        add_row(aggregate(rows.drop_last()), rows.last())
    }
}

/// The text of one description row.
pub open spec fn render_row(c: CountedRow) -> Seq<char> {
    two_digits(c.season as nat) + "x"@ + two_digits(c.episode as nat) + " - "@ + c.title + " ["@
        + c.quality + "]"@ + if c.count == 1 {
        Seq::empty()
    } else {
        " ("@ + decimal(c.count as nat) + "x)"@
    }
}

/// Lines joined with a single newline between them.
pub open spec fn join_lines(lines: Seq<Seq<char>>) -> Seq<char>
    decreases lines.len(),
{
    if lines.len() == 0 {
        Seq::empty()
    } else if lines.len() == 1 {
        lines[0]
    } else {
        join_lines(lines.drop_last()) + "\n"@ + lines.last()
    }
}

/// The description of a group: its aggregated rows, one per line.
pub open spec fn description_of(group: Seq<SonarrEventView>) -> Seq<char> {
    join_lines(aggregate(flat_rows(group)).map_values(|c: CountedRow| render_row(c)))
}

/// The verb that names what happened to the episodes.
pub open spec fn verb(kind: SonarrEventType, is_upgrade: bool) -> Seq<char> {
    match kind {
        SonarrEventType::Grab => "Grabbed"@,
        SonarrEventType::Download => if is_upgrade {
            "Upgraded"@
        } else {
            "Imported"@
        },
        SonarrEventType::Upgrade => "Upgraded"@,
        SonarrEventType::Rename => "Renamed"@,
        _ => "Unknown"@,
    }
}

/// The embed colour of a kind, as 24-bit RGB.
pub open spec fn color(kind: SonarrEventType) -> u32 {
    match kind {
        SonarrEventType::Test => 0x0800FF,
        SonarrEventType::Grab => 0xFFC130,
        SonarrEventType::Download => 0x29A44C,
        SonarrEventType::Upgrade => 0x3E6800,
        SonarrEventType::Rename => 0xFF00FF,
        _ => 0xFFFFFF,
    }
}

/// The content line of a group, taken from its first event.
pub open spec fn content_of(group: Seq<SonarrEventView>) -> Seq<char> {
    let e = group[0];
    let head = verb(effective_kind(e), e.is_upgrade == Some(true)) + ": "@ + e.series.title@;
    if group.len() == 1 && e.episodes.len() == 1 {
        head + " - "@ + two_digits(e.episodes[0].season_number as nat) + "x"@ + two_digits(
            e.episodes[0].episode_number as nat,
        ) + " - "@ + e.episodes[0].title@
    } else {
        head + " Season "@ + two_digits(e.episodes[0].season_number as nat)
    }
}

/// What is needed of a group before it can be rendered.
pub open spec fn renderable(group: Seq<SonarrEventView>) -> bool {
    group.len() > 0 && group[0].episodes.len() > 0
}

/// The verb for an event kind (`Download` reads "Upgraded" when it is an upgrade).
pub fn verb_of(kind: SonarrEventType, is_upgrade: bool) -> (r: &'static str)
    ensures
        r@ == verb(kind, is_upgrade),
{
    match kind {
        SonarrEventType::Grab => "Grabbed",
        SonarrEventType::Download => if is_upgrade {
            "Upgraded"
        } else {
            "Imported"
        },
        SonarrEventType::Upgrade => "Upgraded",
        SonarrEventType::Rename => "Renamed",
        _ => "Unknown",
    }
}

/// The embed colour of an event kind.
pub fn color_of(kind: SonarrEventType) -> (r: u32)
    ensures
        r == color(kind),
{
    match kind {
        SonarrEventType::Test => 0x0800FF,
        SonarrEventType::Grab => 0xFFC130,
        SonarrEventType::Download => 0x29A44C,
        SonarrEventType::Upgrade => 0x3E6800,
        SonarrEventType::Rename => 0xFF00FF,
        _ => 0xFFFFFF,
    }
}

/// The quality label of an event: episode file first, then release, then `None`.
pub fn resolve_quality(e: &SonarrRequestBody) -> (r: String)
    ensures
        r@ == quality_of(e@),
{
    match &e.episode_file {
        Some(f) => f.quality.clone(),
        None => match &e.release {
            Some(rel) => match &rel.quality {
                Some(q) => q.clone(),
                None => String::from_str("None"),
            },
            None => String::from_str("None"),
        },
    }
}

/// Rows in strictly ascending (season, episode) order: each episode at most once.
pub open spec fn strictly_ordered(acc: Seq<CountedRow>) -> bool {
    forall|i: int, j: int|
        0 <= i < j < acc.len() ==> episode_lt(acc[i].season, acc[i].episode, acc[j].season, acc[j].episode)
}

/// Whether some row of `rows` is of the episode (season, episode).
pub open spec fn has_episode(rows: Seq<Row>, season: u64, episode: u64) -> bool {
    exists|i: int| 0 <= i < rows.len() && rows[i].season == season && rows[i].episode == episode
}

/// Whether some aggregated row is of the episode (season, episode).
pub open spec fn has_counted(acc: Seq<CountedRow>, season: u64, episode: u64) -> bool {
    exists|i: int| 0 <= i < acc.len() && acc[i].season == season && acc[i].episode == episode
}

proof fn lemma_add_row_ordered(acc: Seq<CountedRow>, r: Row)
    requires
        strictly_ordered(acc),
    ensures
        strictly_ordered(add_row(acc, r)),
        forall|x: int|
            0 <= x < add_row(acc, r).len() ==> (#[trigger] add_row(acc, r)[x].season == r.season
                && add_row(acc, r)[x].episode == r.episode) || has_counted(
                acc,
                add_row(acc, r)[x].season,
                add_row(acc, r)[x].episode,
            ),
        has_counted(add_row(acc, r), r.season, r.episode),
        forall|j: int|
            0 <= j < acc.len() ==> has_counted(add_row(acc, r), #[trigger] acc[j].season, acc[j].episode),
    decreases acc.len(),
{
    let out = add_row(acc, r);
    if acc.len() == 0 {
        assert(out[0].season == r.season && out[0].episode == r.episode);
    } else if episode_lt(r.season, r.episode, acc[0].season, acc[0].episode) {
        assert forall|j: int| 0 <= j < acc.len() implies has_counted(
            out,
            #[trigger] acc[j].season,
            acc[j].episode,
        ) by {
            assert(out[j + 1] == acc[j]);
        }
        assert forall|x: int| 0 <= x < out.len() && x > 0 implies has_counted(
            acc,
            #[trigger] out[x].season,
            out[x].episode,
        ) by {
            assert(out[x] == acc[x - 1]);
        }
        assert(out[0].season == r.season && out[0].episode == r.episode);
        assert forall|a: int, b: int| 0 <= a < b < out.len() implies episode_lt(
            out[a].season,
            out[a].episode,
            out[b].season,
            out[b].episode,
        ) by {
            assert(out[b] == acc[b - 1]);
            if a > 0 {
                assert(out[a] == acc[a - 1]);
            } else if b > 1 {
                assert(episode_lt(acc[0].season, acc[0].episode, acc[b - 1].season, acc[b - 1].episode));
            }
        }
    } else if r.season == acc[0].season && r.episode == acc[0].episode {
        assert forall|j: int| 0 <= j < acc.len() implies has_counted(
            out,
            #[trigger] acc[j].season,
            acc[j].episode,
        ) by {
            assert(out[j].season == acc[j].season && out[j].episode == acc[j].episode);
        }
        assert(out[0].season == r.season && out[0].episode == r.episode);
        assert forall|x: int| 0 <= x < out.len() implies has_counted(
            acc,
            #[trigger] out[x].season,
            out[x].episode,
        ) by {
            assert(out[x].season == acc[x].season && out[x].episode == acc[x].episode);
        }
        assert forall|a: int, b: int| 0 <= a < b < out.len() implies episode_lt(
            out[a].season,
            out[a].episode,
            out[b].season,
            out[b].episode,
        ) by {
            assert(out[a].season == acc[a].season && out[a].episode == acc[a].episode);
            assert(out[b].season == acc[b].season && out[b].episode == acc[b].episode);
        }
    } else {
        let rest = acc.drop_first();
        assert(strictly_ordered(rest)) by {
            assert forall|a: int, b: int| 0 <= a < b < rest.len() implies episode_lt(
                rest[a].season,
                rest[a].episode,
                rest[b].season,
                rest[b].episode,
            ) by {
                assert(rest[a] == acc[a + 1] && rest[b] == acc[b + 1]);
            }
        }
        lemma_add_row_ordered(rest, r);
        let tail = add_row(rest, r);
        assert(out == seq![acc[0]] + tail);
        assert forall|x: int| 0 <= x < tail.len() implies episode_lt(
            acc[0].season,
            acc[0].episode,
            #[trigger] tail[x].season,
            tail[x].episode,
        ) by {
            if !(tail[x].season == r.season && tail[x].episode == r.episode) {
                let j = choose|j: int|
                    0 <= j < rest.len() && rest[j].season == tail[x].season && rest[j].episode
                        == tail[x].episode;
                assert(rest[j] == acc[j + 1]);
            }
        }
        assert forall|a: int, b: int| 0 <= a < b < out.len() implies episode_lt(
            out[a].season,
            out[a].episode,
            out[b].season,
            out[b].episode,
        ) by {
            assert(out[b] == tail[b - 1]);
            if a > 0 {
                assert(out[a] == tail[a - 1]);
            }
        }
        assert forall|x: int| 0 <= x < out.len() implies (#[trigger] out[x].season == r.season
            && out[x].episode == r.episode) || has_counted(acc, out[x].season, out[x].episode) by {
            if x > 0 {
                assert(out[x] == tail[x - 1]);
                if !(out[x].season == r.season && out[x].episode == r.episode) {
                    assert(has_counted(rest, tail[x - 1].season, tail[x - 1].episode));
                    let j = choose|j: int|
                        0 <= j < rest.len() && rest[j].season == tail[x - 1].season
                            && rest[j].episode == tail[x - 1].episode;
                    assert(rest[j] == acc[j + 1]);
                }
            } else {
                assert(out[0] == acc[0]);
            }
        }
        let w = choose|w: int|
            0 <= w < tail.len() && tail[w].season == r.season && tail[w].episode == r.episode;
        assert(out[w + 1] == tail[w]);
        assert forall|j: int| 0 <= j < acc.len() implies has_counted(
            out,
            #[trigger] acc[j].season,
            acc[j].episode,
        ) by {
            if j > 0 {
                assert(acc[j] == rest[j - 1]);
                assert(has_counted(tail, rest[j - 1].season, rest[j - 1].episode));
                let x = choose|x: int|
                    0 <= x < tail.len() && tail[x].season == rest[j - 1].season && tail[x].episode
                        == rest[j - 1].episode;
                assert(out[x + 1] == tail[x]);
            } else {
                assert(out[0] == acc[0]);
            }
        }
    }
}

/// The description rows of any group are in strictly ascending (season, episode)
/// order, so each episode appears at most once, and they list exactly the
/// episodes the group's events reference.
pub proof fn lemma_rows_sorted_and_unique(group: Seq<SonarrEventView>)
    ensures
        strictly_ordered(aggregate(flat_rows(group))),
        forall|i: int|
            0 <= i < aggregate(flat_rows(group)).len() ==> has_episode(
                flat_rows(group),
                #[trigger] aggregate(flat_rows(group))[i].season,
                aggregate(flat_rows(group))[i].episode,
            ),
        forall|s: u64, e: u64|
            has_episode(flat_rows(group), s, e) ==> #[trigger] has_counted(
                aggregate(flat_rows(group)),
                s,
                e,
            ),
{
    lemma_aggregate_ordered(flat_rows(group));
}

proof fn lemma_aggregate_ordered(rows: Seq<Row>)
    ensures
        strictly_ordered(aggregate(rows)),
        forall|i: int|
            0 <= i < aggregate(rows).len() ==> has_episode(
                rows,
                #[trigger] aggregate(rows)[i].season,
                aggregate(rows)[i].episode,
            ),
        forall|s: u64, e: u64| has_episode(rows, s, e) ==> #[trigger] has_counted(aggregate(rows), s, e),
    decreases rows.len(),
{
    if rows.len() > 0 {
        let prev = rows.drop_last();
        let r = rows.last();
        lemma_aggregate_ordered(prev);
        let acc = aggregate(prev);
        lemma_add_row_ordered(acc, r);
        let out = aggregate(rows);
        assert(out == add_row(acc, r));
        assert forall|i: int| 0 <= i < out.len() implies has_episode(
            rows,
            #[trigger] out[i].season,
            out[i].episode,
        ) by {
            if out[i].season == r.season && out[i].episode == r.episode {
                assert(rows[rows.len() - 1] == r);
            } else {
                let j = choose|j: int|
                    0 <= j < acc.len() && acc[j].season == out[i].season && acc[j].episode
                        == out[i].episode;
                assert(has_episode(prev, acc[j].season, acc[j].episode));
                let w = choose|w: int|
                    0 <= w < prev.len() && prev[w].season == acc[j].season && prev[w].episode
                        == acc[j].episode;
                assert(rows[w] == prev[w]);
            }
        }
        assert forall|s: u64, e: u64| has_episode(rows, s, e) implies #[trigger] has_counted(
            out,
            s,
            e,
        ) by {
            let w = choose|w: int| 0 <= w < rows.len() && rows[w].season == s && rows[w].episode == e;
            if w < rows.len() - 1 {
                assert(prev[w] == rows[w]);
                assert(has_episode(prev, s, e));
                assert(has_counted(acc, s, e));
                let j = choose|j: int|
                    0 <= j < acc.len() && acc[j].season == s && acc[j].episode == e;
                assert(has_counted(out, acc[j].season, acc[j].episode));
            }
        }
    }
}

/// How many rows are of the episode (season, episode).
pub open spec fn occurrences(rows: Seq<Row>, season: u64, episode: u64) -> nat
    decreases rows.len(),
{
    if rows.len() == 0 {
        0
    } else {
        occurrences(rows.drop_last(), season, episode) + if rows.last().season == season
            && rows.last().episode == episode {
            1nat
        } else {
            0nat
        }
    }
}

/// The count shown for the episode (season, episode): that of the first
/// aggregated row of it, 0 when there is none.
pub open spec fn shown_count(acc: Seq<CountedRow>, season: u64, episode: u64) -> nat
    decreases acc.len(),
{
    if acc.len() == 0 {
        0
    } else if acc[0].season == season && acc[0].episode == episode {
        acc[0].count as nat
    } else {
        shown_count(acc.drop_first(), season, episode)
    }
}

/// A count raised by one, held at the largest `u64`.
pub open spec fn capped_succ(n: nat) -> nat {
    if n < u64::MAX {
        n + 1
    } else {
        n
    }
}

proof fn lemma_shown_count_absent(acc: Seq<CountedRow>, season: u64, episode: u64)
    requires
        !has_counted(acc, season, episode),
    ensures
        shown_count(acc, season, episode) == 0,
    decreases acc.len(),
{
    if acc.len() > 0 {
        assert(!has_counted(acc.drop_first(), season, episode)) by {
            if has_counted(acc.drop_first(), season, episode) {
                let w = choose|w: int|
                    0 <= w < acc.drop_first().len() && acc.drop_first()[w].season == season
                        && acc.drop_first()[w].episode == episode;
                assert(acc[w + 1] == acc.drop_first()[w]);
            }
        }
        lemma_shown_count_absent(acc.drop_first(), season, episode);
    }
}

proof fn lemma_add_row_count(acc: Seq<CountedRow>, r: Row, season: u64, episode: u64)
    requires
        strictly_ordered(acc),
        forall|i: int| 0 <= i < acc.len() ==> #[trigger] acc[i].count >= 1,
    ensures
        shown_count(add_row(acc, r), season, episode) == if r.season == season && r.episode
            == episode {
            capped_succ(shown_count(acc, season, episode))
        } else {
            shown_count(acc, season, episode)
        },
    decreases acc.len(),
{
    if acc.len() == 0 {
        assert(seq![counted(r)].drop_first() =~= Seq::<CountedRow>::empty());
        assert(add_row(acc, r) == seq![counted(r)]);
        assert(seq![counted(r)][0] == counted(r));
        assert(shown_count(acc, season, episode) == 0);
        assert(shown_count(Seq::<CountedRow>::empty(), season, episode) == 0);
    } else {
        if episode_lt(r.season, r.episode, acc[0].season, acc[0].episode) {
            assert((seq![counted(r)] + acc).drop_first() =~= acc);
            assert(add_row(acc, r) == seq![counted(r)] + acc);
            assert((seq![counted(r)] + acc)[0] == counted(r));
            if r.season == season && r.episode == episode {
                assert(!has_counted(acc, season, episode)) by {
                    if has_counted(acc, season, episode) {
                        let w = choose|w: int|
                            0 <= w < acc.len() && acc[w].season == season && acc[w].episode
                                == episode;
                        if w > 0 {
                            assert(episode_lt(
                                acc[0].season,
                                acc[0].episode,
                                acc[w].season,
                                acc[w].episode,
                            ));
                        }
                    }
                }
                lemma_shown_count_absent(acc, season, episode);
            }
        } else if r.season == acc[0].season && r.episode == acc[0].episode {
            let out = seq![incremented(acc[0])] + acc.drop_first();
            assert(out.drop_first() =~= acc.drop_first());
            assert(add_row(acc, r) == out);
            assert(out[0] == incremented(acc[0]));
        } else {
            let rest = acc.drop_first();
            assert(strictly_ordered(rest)) by {
                assert forall|a: int, b: int| 0 <= a < b < rest.len() implies episode_lt(
                    rest[a].season,
                    rest[a].episode,
                    rest[b].season,
                    rest[b].episode,
                ) by {
                    assert(rest[a] == acc[a + 1] && rest[b] == acc[b + 1]);
                }
            }
            assert forall|i: int| 0 <= i < rest.len() implies #[trigger] rest[i].count >= 1 by {
                assert(rest[i] == acc[i + 1]);
            }
            lemma_add_row_count(rest, r, season, episode);
            let out = seq![acc[0]] + add_row(rest, r);
            assert(out.drop_first() =~= add_row(rest, r));
            assert(add_row(acc, r) == out);
            assert(out[0] == acc[0]);
        }
    }
}

proof fn lemma_aggregate_counts(rows: Seq<Row>, season: u64, episode: u64)
    ensures
        strictly_ordered(aggregate(rows)),
        forall|i: int| 0 <= i < aggregate(rows).len() ==> #[trigger] aggregate(rows)[i].count >= 1,
        shown_count(aggregate(rows), season, episode) == if occurrences(rows, season, episode)
            < u64::MAX {
            occurrences(rows, season, episode)
        } else {
            u64::MAX as nat
        },
    decreases rows.len(),
{
    lemma_aggregate_ordered(rows);
    if rows.len() > 0 {
        let prev = rows.drop_last();
        lemma_aggregate_counts(prev, season, episode);
        lemma_add_row_count(aggregate(prev), rows.last(), season, episode);
        lemma_add_row_ordered(aggregate(prev), rows.last());
        let acc = aggregate(prev);
        let out = aggregate(rows);
        assert forall|i: int| 0 <= i < out.len() implies #[trigger] out[i].count >= 1 by {
            lemma_add_row_keeps_counts(acc, rows.last(), i);
        }
    } else {
        assert(shown_count(aggregate(rows), season, episode) == 0);
    }
}

proof fn lemma_add_row_keeps_counts(acc: Seq<CountedRow>, r: Row, i: int)
    requires
        forall|j: int| 0 <= j < acc.len() ==> #[trigger] acc[j].count >= 1,
        0 <= i < add_row(acc, r).len(),
    ensures
        add_row(acc, r)[i].count >= 1,
    decreases acc.len(),
{
    if acc.len() > 0 {
        if episode_lt(r.season, r.episode, acc[0].season, acc[0].episode) {
            if i > 0 {
                assert(add_row(acc, r)[i] == acc[i - 1]);
            }
        } else if r.season == acc[0].season && r.episode == acc[0].episode {
            if i > 0 {
                assert(add_row(acc, r)[i] == acc[i]);
            }
        } else if i > 0 {
            let rest = acc.drop_first();
            assert forall|j: int| 0 <= j < rest.len() implies #[trigger] rest[j].count >= 1 by {
                assert(rest[j] == acc[j + 1]);
            }
            lemma_add_row_keeps_counts(rest, r, i - 1);
        }
    }
}

/// Counts aggregate: in the description of any group, the count shown for an
/// episode is the number of rows its events contribute for it (held at the
/// largest `u64`), and 0 for an episode none of them references.
pub proof fn lemma_counts_aggregate(group: Seq<SonarrEventView>, season: u64, episode: u64)
    ensures
        shown_count(aggregate(flat_rows(group)), season, episode) == if occurrences(
            flat_rows(group),
            season,
            episode,
        ) < u64::MAX {
            occurrences(flat_rows(group), season, episode)
        } else {
            u64::MAX as nat
        },
{
    lemma_aggregate_counts(flat_rows(group), season, episode);
}

/// The colour and the verb of a group's message depend on nothing but the
/// first event's kind and upgrade flag: two groups whose first events agree on
/// those get the same colour and open their content with the same verb.
pub proof fn lemma_color_and_verb_depend_on_kind(
    g1: Seq<SonarrEventView>,
    g2: Seq<SonarrEventView>,
    e1: Embed,
    e2: Embed,
)
    requires
        renderable(g1),
        renderable(g2),
        effective_kind(g1[0]) == effective_kind(g2[0]),
        g1[0].is_upgrade == g2[0].is_upgrade,
        is_group_embed(e1, g1),
        is_group_embed(e2, g2),
    ensures
        e1.color == e2.color,
        content_of(g1).take(verb(effective_kind(g1[0]), g1[0].is_upgrade == Some(true)).len() as int)
            == content_of(g2).take(
            verb(effective_kind(g2[0]), g2[0].is_upgrade == Some(true)).len() as int,
        ),
{
    let v = verb(effective_kind(g1[0]), g1[0].is_upgrade == Some(true));
    let h1 = v + ": "@ + g1[0].series.title@;
    let h2 = v + ": "@ + g2[0].series.title@;
    assert(content_of(g1).take(v.len() as int) =~= v);
    assert(content_of(g2).take(v.len() as int) =~= v);
}

/// The views of a sequence of aggregated rows.
pub open spec fn row_views(v: Seq<EpisodeRow>) -> Seq<CountedRow> {
    v.map_values(|r: EpisodeRow| r@)
}

proof fn lemma_add_row_at(acc: Seq<CountedRow>, r: Row, i: int)
    requires
        0 <= i <= acc.len(),
        forall|j: int| 0 <= j < i ==> episode_lt(acc[j].season, acc[j].episode, r.season, r.episode),
        i < acc.len() ==> !episode_lt(acc[i].season, acc[i].episode, r.season, r.episode),
    ensures
        add_row(acc, r) == if i < acc.len() && acc[i].season == r.season && acc[i].episode
            == r.episode {
            acc.update(i, incremented(acc[i]))
        } else {
            acc.insert(i, counted(r))
        },
    decreases i,
{
    if i == 0 {
        if acc.len() == 0 {
            assert(acc.insert(0, counted(r)) =~= seq![counted(r)]);
        } else if r.season == acc[0].season && r.episode == acc[0].episode {
            assert(acc.update(0, incremented(acc[0])) =~= seq![incremented(acc[0])]
                + acc.drop_first());
        } else {
            assert(acc.insert(0, counted(r)) =~= seq![counted(r)] + acc);
        }
    } else {
        lemma_add_row_at(acc.drop_first(), r, i - 1);
        let rest = acc.drop_first();
        if i < acc.len() && acc[i].season == r.season && acc[i].episode == r.episode {
            assert(acc.update(i, incremented(acc[i])) =~= seq![acc[0]] + rest.update(
                i - 1,
                incremented(rest[i - 1]),
            ));
        } else {
            assert(acc.insert(i, counted(r)) =~= seq![acc[0]] + rest.insert(i - 1, counted(r)));
        }
    }
}

/// Adds one row to rows ordered by episode, as `add_row` describes.
pub fn add_episode_row(
    acc: &mut Vec<EpisodeRow>,
    season: u64,
    episode: u64,
    title: String,
    quality: String,
)
    ensures
        row_views(final(acc)@) == add_row(
            row_views(old(acc)@),
            Row { season, episode, title: title@, quality: quality@ },
        ),
{
    let ghost r = Row { season, episode, title: title@, quality: quality@ };
    let ghost before = row_views(acc@);
    let mut i: usize = 0;
    while i < acc.len() && (acc[i].season_number < season || (acc[i].season_number == season
        && acc[i].episode_number < episode))
        invariant
            i <= acc@.len(),
            row_views(acc@) == before,
            forall|j: int|
                0 <= j < i ==> episode_lt(before[j].season, before[j].episode, season, episode),
        decreases acc@.len() - i,
    {
        i = i + 1;
    }
    proof {
        lemma_add_row_at(before, r, i as int);
    }
    if i < acc.len() && acc[i].season_number == season && acc[i].episode_number == episode {
        let mut row = acc.remove(i);
        if row.count < u64::MAX {
            row.count = row.count + 1;
        }
        acc.insert(i, row);
        assert(row_views(acc@) =~= before.update(i as int, incremented(before[i as int])));
    } else {
        acc.insert(
            i,
            EpisodeRow { season_number: season, episode_number: episode, title, quality, count: 1 },
        );
        assert(row_views(acc@) =~= before.insert(i as int, counted(r)));
    }
}

/// The aggregated, ordered description rows of a group of events.
pub fn aggregate_rows(group: &[SonarrRequestBody]) -> (r: Vec<EpisodeRow>)
    ensures
        row_views(r@) == aggregate(flat_rows(views(group@))),
{
    let ghost evs = views(group@);
    let mut acc: Vec<EpisodeRow> = Vec::new();
    let mut k: usize = 0;
    proof {
        assert(row_views(acc@) =~= Seq::<CountedRow>::empty());
        assert(evs.take(0) =~= Seq::<SonarrEventView>::empty());
    }
    while k < group.len()
        invariant
            k <= group@.len(),
            evs == views(group@),
            row_views(acc@) == aggregate(flat_rows(evs.take(k as int))),
        decreases group@.len() - k,
    {
        let e = &group[k];
        let quality = resolve_quality(e);
        let ghost done = flat_rows(evs.take(k as int));
        let mut j: usize = 0;
        proof {
            assert(done + event_rows(e@).take(0) =~= done);
        }
        while j < e.episodes.len()
            invariant
                j <= e@.episodes.len(),
                quality@ == quality_of(e@),
                row_views(acc@) == aggregate(done + event_rows(e@).take(j as int)),
            decreases e@.episodes.len() - j,
        {
            let ep = &e.episodes[j];
            add_episode_row(
                &mut acc,
                ep.season_number,
                ep.episode_number,
                ep.title.clone(),
                quality.clone(),
            );
            proof {
                let prev = done + event_rows(e@).take(j as int);
                let next = done + event_rows(e@).take(j + 1);
                assert(next.drop_last() =~= prev);
                assert(next.last() == event_rows(e@)[j as int]);
            }
            j = j + 1;
        }
        proof {
            assert(event_rows(e@).take(j as int) =~= event_rows(e@));
            assert(evs.take(k + 1).drop_last() =~= evs.take(k as int));
            assert(evs.take(k + 1).last() == e@);
        }
        k = k + 1;
    }
    assert(evs.take(k as int) =~= evs);
    acc
}

/// Appends the text of one description row.
fn push_row(out: &mut String, row: &EpisodeRow)
    ensures
        final(out)@ == old(out)@ + render_row(row@),
{
    push_two_digits(out, row.season_number);
    out.append("x");
    push_two_digits(out, row.episode_number);
    out.append(" - ");
    out.append(row.title.as_str());
    out.append(" [");
    out.append(row.quality.as_str());
    out.append("]");
    if row.count != 1 {
        out.append(" (");
        push_decimal(out, row.count);
        out.append("x)");
    }
    assert(final(out)@ =~= old(out)@ + render_row(row@));
}

/// The description text: one rendered row per line.
pub fn render_description(rows: &Vec<EpisodeRow>) -> (r: String)
    ensures
        r@ == join_lines(row_views(rows@).map_values(|c: CountedRow| render_row(c))),
{
    let ghost lines = row_views(rows@).map_values(|c: CountedRow| render_row(c));
    let mut out = String::new();
    let mut i: usize = 0;
    while i < rows.len()
        invariant
            i <= rows@.len(),
            lines == row_views(rows@).map_values(|c: CountedRow| render_row(c)),
            out@ == join_lines(lines.take(i as int)),
        decreases rows@.len() - i,
    {
        if i > 0 {
            out.append("\n");
        }
        push_row(&mut out, &rows[i]);
        proof {
            let next = lines.take(i + 1);
            assert(next.drop_last() =~= lines.take(i as int));
            assert(next.last() == render_row(rows@[i as int]@));
            if i == 0 {
                assert(join_lines(next) == next[0]);
            }
        }
        i = i + 1;
    }
    assert(lines.take(i as int) =~= lines);
    out
}

/// The content line of a group, as `content_of` describes.
fn render_content(sonarr_data: &[SonarrRequestBody]) -> (r: String)
    requires
        renderable(views(sonarr_data@)),
    ensures
        r@ == content_of(views(sonarr_data@)),
{
    let ghost group = views(sonarr_data@);
    let first = &sonarr_data[0];
    assert(group[0] == first@);
    let kind = match crate::sonarr::normalised_event_type(first.event_type, first.is_upgrade) {
        Some(k) => k,
        None => SonarrEventType::Test,
    };
    let is_upgrade = match first.is_upgrade {
        Some(b) => b,
        None => false,
    };
    let mut out = String::new();
    out.append(verb_of(kind, is_upgrade));
    out.append(": ");
    out.append(first.series.title.as_str());
    let episode = &first.episodes[0];
    if sonarr_data.len() == 1 && first.episodes.len() == 1 {
        out.append(" - ");
        push_two_digits(&mut out, episode.season_number);
        out.append("x");
        push_two_digits(&mut out, episode.episode_number);
        out.append(" - ");
        out.append(episode.title.as_str());
    } else {
        out.append(" Season ");
        push_two_digits(&mut out, episode.season_number);
    }
    assert(out@ =~= content_of(group));
    out
}

/// The embed of a group, as `convert_group_to_webhook` describes it.
pub open spec fn is_group_embed(embed: Embed, group: Seq<SonarrEventView>) -> bool {
    &&& embed.title matches Some(t) && t@ == group[0].series.title@
    &&& embed.color == Some(color(effective_kind(group[0])))
    &&& embed.description matches Some(d) && d@ == description_of(group)
    &&& embed.kind@ == "rich"@
}

/// Renders a group of events into one message: a content line and a single embed
/// holding the series title, the kind's colour and the aggregated episode rows.
pub fn convert_group_to_webhook(sonarr_data: &[SonarrRequestBody]) -> (r: DiscordWebhookBody)
    requires
        renderable(views(sonarr_data@)),
    ensures
        r.content@ == content_of(views(sonarr_data@)),
        r.embeds@.len() == 1,
        is_group_embed(r.embeds@[0], views(sonarr_data@)),
{
    let ghost group = views(sonarr_data@);
    let first = &sonarr_data[0];
    assert(group[0] == first@);
    let content = render_content(sonarr_data);
    let rows = aggregate_rows(sonarr_data);
    let description = render_description(&rows);
    let kind = match crate::sonarr::normalised_event_type(first.event_type, first.is_upgrade) {
        Some(k) => k,
        None => SonarrEventType::Test,
    };
    let embed = Embed {
        title: Some(first.series.title.clone()),
        color: Some(color_of(kind)),
        description: Some(description),
        kind: String::from_str("rich"),
    };
    let mut embeds: Vec<Embed> = Vec::new();
    embeds.push(embed);
    DiscordWebhookBody { content, embeds }
}

} // verus!

//! The inbound episode event and its parts.
use vstd::prelude::*;

verus! {

/// The kind of action an event reports.
#[derive(PartialEq, Eq, Structural, Clone, Copy, Debug, Hash, PartialOrd, Ord)]
pub enum SonarrEventType {
    Test,
    Grab,
    Download,
    Upgrade,
    Rename,
    SeriesAdd,
    SeriesDelete,
    EpisodeFileDelete,
    Health,
    ApplicationUpdate,
    HealthRestored,
    ManualInteractionRequired,
}

pub struct SonarrCustomFormat {
    pub id: Option<u64>,
    pub name: Option<String>,
}

pub struct SonarrCustomFormatInfo {
    pub custom_format_score: Option<i64>,
    pub custom_formats: Option<Vec<SonarrCustomFormat>>,
}

pub struct SonarrEpisodeFile {
    pub date_added: Option<String>,
    pub id: Option<u64>,
    /// The media-info object, kept as its JSON text.
    pub media_info: Option<String>,
    pub path: Option<String>,
    pub quality: String,
    pub quality_version: Option<u64>,
    pub relative_path: Option<String>,
    pub release_group: Option<String>,
    pub scene_name: Option<String>,
    pub size: Option<u64>,
}

pub struct SonarrEpisode {
    pub air_date: Option<String>,
    pub air_date_utc: Option<String>,
    pub episode_number: u64,
    pub id: Option<u64>,
    pub overview: Option<String>,
    pub season_number: u64,
    pub series_id: u64,
    pub title: String,
}

pub struct SonarrRelease {
    pub custom_format_score: Option<i64>,
    pub custom_formats: Option<Vec<String>>,
    pub indexer: Option<String>,
    pub quality: Option<String>,
    pub quality_version: Option<u64>,
    pub release_group: Option<String>,
    pub release_title: Option<String>,
    pub size: Option<u64>,
}

pub struct SonarrSeries {
    pub id: Option<u64>,
    pub imdb_id: Option<String>,
    pub path: Option<String>,
    pub title: String,
    pub title_slug: Option<String>,
    pub tv_maze_id: Option<u64>,
    pub tvdb_id: Option<u64>,
    pub type_: Option<String>,
    pub year: Option<u64>,
}

/// One inbound event: a series, the episodes it touches, and what happened.
pub struct SonarrRequestBody {
    pub application_url: Option<String>,
    pub custom_format_info: Option<SonarrCustomFormatInfo>,
    pub download_client: Option<String>,
    pub download_id: Option<String>,
    pub episodes: Vec<SonarrEpisode>,
    pub event_type: Option<SonarrEventType>,
    pub instance_name: Option<String>,
    pub release: Option<SonarrRelease>,
    pub series: SonarrSeries,
    pub episode_file: Option<SonarrEpisodeFile>,
    pub is_upgrade: Option<bool>,
}

/// The release details of an event, with its lists as sequences.
pub ghost struct SonarrReleaseView {
    pub custom_format_score: Option<i64>,
    pub custom_formats: Option<Seq<String>>,
    pub indexer: Option<String>,
    pub quality: Option<String>,
    pub quality_version: Option<u64>,
    pub release_group: Option<String>,
    pub release_title: Option<String>,
    pub size: Option<u64>,
}

/// The custom-format details of an event, with its list as a sequence.
pub ghost struct SonarrCustomFormatInfoView {
    pub custom_format_score: Option<i64>,
    pub custom_formats: Option<Seq<SonarrCustomFormat>>,
}

/// An event as a mathematical value: every field, with lists as sequences.
pub ghost struct SonarrEventView {
    pub application_url: Option<String>,
    pub custom_format_info: Option<SonarrCustomFormatInfoView>,
    pub download_client: Option<String>,
    pub download_id: Option<String>,
    pub episodes: Seq<SonarrEpisode>,
    pub event_type: Option<SonarrEventType>,
    pub instance_name: Option<String>,
    pub release: Option<SonarrReleaseView>,
    pub series: SonarrSeries,
    pub episode_file: Option<SonarrEpisodeFile>,
    pub is_upgrade: Option<bool>,
}

impl View for SonarrRelease {
    type V = SonarrReleaseView;

    open spec fn view(&self) -> SonarrReleaseView {
        SonarrReleaseView {
            custom_format_score: self.custom_format_score,
            custom_formats: match self.custom_formats {
                Some(v) => Some(v@),
                None => None,
            },
            indexer: self.indexer,
            quality: self.quality,
            quality_version: self.quality_version,
            release_group: self.release_group,
            release_title: self.release_title,
            size: self.size,
        }
    }
}

impl View for SonarrCustomFormatInfo {
    type V = SonarrCustomFormatInfoView;

    open spec fn view(&self) -> SonarrCustomFormatInfoView {
        SonarrCustomFormatInfoView {
            custom_format_score: self.custom_format_score,
            custom_formats: match self.custom_formats {
                Some(v) => Some(v@),
                None => None,
            },
        }
    }
}

impl View for SonarrRequestBody {
    type V = SonarrEventView;

    open spec fn view(&self) -> SonarrEventView {
        SonarrEventView {
            application_url: self.application_url,
            custom_format_info: match self.custom_format_info {
                Some(c) => Some(c@),
                None => None,
            },
            download_client: self.download_client,
            download_id: self.download_id,
            episodes: self.episodes@,
            event_type: self.event_type,
            instance_name: self.instance_name,
            release: match self.release {
                Some(r) => Some(r@),
                None => None,
            },
            series: self.series,
            episode_file: self.episode_file,
            is_upgrade: self.is_upgrade,
        }
    }
}

fn clone_text(s: &Option<String>) -> (r: Option<String>)
    ensures
        r == *s,
{
    match s {
        Some(t) => Some(t.clone()),
        None => None,
    }
}

fn clone_texts(s: &Option<Vec<String>>) -> (r: Option<Vec<String>>)
    ensures
        r is Some <==> s is Some,
        s is Some ==> r->0@ == s->0@,
{
    match s {
        Some(v) => {
            let mut out: Vec<String> = Vec::new();
            let mut i: usize = 0;
            while i < v.len()
                invariant
                    i <= v@.len(),
                    out@ == v@.subrange(0, i as int),
                decreases v@.len() - i,
            {
                out.push(v[i].clone());
                i = i + 1;
            }
            assert(out@ =~= v@);
            Some(out)
        },
        None => None,
    }
}

impl Clone for SonarrCustomFormat {
    fn clone(&self) -> (r: Self)
        ensures
            r == *self,
    {
        SonarrCustomFormat { id: self.id, name: clone_text(&self.name) }
    }
}

impl Clone for SonarrCustomFormatInfo {
    fn clone(&self) -> (r: Self)
        ensures
            r@ == self@,
    {
        let custom_formats = match &self.custom_formats {
            Some(v) => {
                let mut out: Vec<SonarrCustomFormat> = Vec::new();
                let mut i: usize = 0;
                while i < v.len()
                    invariant
                        i <= v@.len(),
                        out@ == v@.subrange(0, i as int),
                    decreases v@.len() - i,
                {
                    out.push(v[i].clone());
                    i = i + 1;
                }
                assert(out@ =~= v@);
                Some(out)
            },
            None => None,
        };
        SonarrCustomFormatInfo { custom_format_score: self.custom_format_score, custom_formats }
    }
}

impl Clone for SonarrEpisodeFile {
    fn clone(&self) -> (r: Self)
        ensures
            r == *self,
    {
        SonarrEpisodeFile {
            date_added: clone_text(&self.date_added),
            id: self.id,
            media_info: clone_text(&self.media_info),
            path: clone_text(&self.path),
            quality: self.quality.clone(),
            quality_version: self.quality_version,
            relative_path: clone_text(&self.relative_path),
            release_group: clone_text(&self.release_group),
            scene_name: clone_text(&self.scene_name),
            size: self.size,
        }
    }
}

impl Clone for SonarrEpisode {
    fn clone(&self) -> (r: Self)
        ensures
            r == *self,
    {
        SonarrEpisode {
            air_date: clone_text(&self.air_date),
            air_date_utc: clone_text(&self.air_date_utc),
            episode_number: self.episode_number,
            id: self.id,
            overview: clone_text(&self.overview),
            season_number: self.season_number,
            series_id: self.series_id,
            title: self.title.clone(),
        }
    }
}

impl Clone for SonarrRelease {
    fn clone(&self) -> (r: Self)
        ensures
            r@ == self@,
    {
        SonarrRelease {
            custom_format_score: self.custom_format_score,
            custom_formats: clone_texts(&self.custom_formats),
            indexer: clone_text(&self.indexer),
            quality: clone_text(&self.quality),
            quality_version: self.quality_version,
            release_group: clone_text(&self.release_group),
            release_title: clone_text(&self.release_title),
            size: self.size,
        }
    }
}

impl Clone for SonarrSeries {
    fn clone(&self) -> (r: Self)
        ensures
            r == *self,
    {
        SonarrSeries {
            id: self.id,
            imdb_id: clone_text(&self.imdb_id),
            path: clone_text(&self.path),
            title: self.title.clone(),
            title_slug: clone_text(&self.title_slug),
            tv_maze_id: self.tv_maze_id,
            tvdb_id: self.tvdb_id,
            type_: clone_text(&self.type_),
            year: self.year,
        }
    }
}

impl Clone for SonarrRequestBody {
    fn clone(&self) -> (r: Self)
        ensures
            r@ == self@,
    {
        let mut episodes: Vec<SonarrEpisode> = Vec::new();
        let mut i: usize = 0;
        while i < self.episodes.len()
            invariant
                i <= self.episodes@.len(),
                episodes@ == self.episodes@.subrange(0, i as int),
            decreases self.episodes@.len() - i,
        {
            episodes.push(self.episodes[i].clone());
            i = i + 1;
        }
        assert(episodes@ =~= self.episodes@);
        let custom_format_info = match &self.custom_format_info {
            Some(c) => Some(c.clone()),
            None => None,
        };
        let release = match &self.release {
            Some(r) => Some(r.clone()),
            None => None,
        };
        let episode_file = match &self.episode_file {
            Some(f) => Some(f.clone()),
            None => None,
        };
        SonarrRequestBody {
            application_url: clone_text(&self.application_url),
            custom_format_info,
            download_client: clone_text(&self.download_client),
            download_id: clone_text(&self.download_id),
            episodes,
            event_type: self.event_type,
            instance_name: clone_text(&self.instance_name),
            release,
            series: self.series.clone(),
            episode_file,
            is_upgrade: self.is_upgrade,
        }
    }
}

/// The views of a sequence of events.
pub open spec fn views(s: Seq<SonarrRequestBody>) -> Seq<SonarrEventView> {
    s.map_values(|e: SonarrRequestBody| e@)
}

/// The event kind after folding an upgrading download into `Upgrade`.
pub open spec fn normalised_type(t: Option<SonarrEventType>, is_upgrade: Option<bool>) -> Option<
    SonarrEventType,
> {
    if t == Some(SonarrEventType::Download) && is_upgrade == Some(true) {
        Some(SonarrEventType::Upgrade)
    } else {
        t
    }
}

/// The event with its kind normalised; every other field is kept.
pub open spec fn normalised(e: SonarrEventView) -> SonarrEventView {
    SonarrEventView { event_type: normalised_type(e.event_type, e.is_upgrade), ..e }
}

/// The kind an event is grouped and rendered under: its normalised kind, `Test` when absent.
pub open spec fn effective_kind(e: SonarrEventView) -> SonarrEventType {
    match normalised_type(e.event_type, e.is_upgrade) {
        Some(k) => k,
        None => SonarrEventType::Test,
    }
}

/// Whether the ingress accepts events of this kind.
pub open spec fn is_accepted_kind(k: SonarrEventType) -> bool {
    k == SonarrEventType::Grab || k == SonarrEventType::Download || k == SonarrEventType::Upgrade
}

/// Folds a download flagged as an upgrade into the `Upgrade` kind.
pub fn normalised_event_type(t: Option<SonarrEventType>, is_upgrade: Option<bool>) -> (r: Option<
    SonarrEventType,
>)
    ensures
        r == normalised_type(t, is_upgrade),
{
    match t {
        Some(SonarrEventType::Download) => {
            match is_upgrade {
                Some(true) => Some(SonarrEventType::Upgrade),
                _ => Some(SonarrEventType::Download),
            }
        },
        _ => t,
    }
}

/// Rewrites a download flagged as an upgrade into an `Upgrade` event; any other event is unchanged.
pub fn normalise(e: SonarrRequestBody) -> (r: SonarrRequestBody)
    ensures
        r@ == normalised(e@),
{
    let mut e = e;
    e.event_type = normalised_event_type(e.event_type, e.is_upgrade);
    e
}

/// Whether an event's normalised kind passes the ingress gate (`Grab`, `Download` or `Upgrade`).
pub fn is_accepted(e: &SonarrRequestBody) -> (r: bool)
    ensures
        r == (normalised_type(e@.event_type, e@.is_upgrade) matches Some(k) && is_accepted_kind(k)),
{
    match normalised_event_type(e.event_type, e.is_upgrade) {
        Some(SonarrEventType::Grab) | Some(SonarrEventType::Download) | Some(
            SonarrEventType::Upgrade,
        ) => true,
        _ => false,
    }
}

/// The grouping key of a message: series id, normalised event kind, season number.
#[derive(PartialEq, Eq, Structural, Clone, Copy, Debug, Hash, PartialOrd, Ord)]
pub struct SonarrGroupKey(pub u64, pub SonarrEventType, pub u64);

/// The position of a kind in the declared order of kinds.
pub open spec fn kind_rank(k: SonarrEventType) -> nat {
    match k {
        SonarrEventType::Test => 0,
        SonarrEventType::Grab => 1,
        SonarrEventType::Download => 2,
        SonarrEventType::Upgrade => 3,
        SonarrEventType::Rename => 4,
        SonarrEventType::SeriesAdd => 5,
        SonarrEventType::SeriesDelete => 6,
        SonarrEventType::EpisodeFileDelete => 7,
        SonarrEventType::Health => 8,
        SonarrEventType::ApplicationUpdate => 9,
        SonarrEventType::HealthRestored => 10,
        SonarrEventType::ManualInteractionRequired => 11,
    }
}

/// Lexicographic order on keys: series id, then kind, then season.
pub open spec fn key_lt(a: SonarrGroupKey, b: SonarrGroupKey) -> bool {
    a.0 < b.0 || (a.0 == b.0 && (kind_rank(a.1) < kind_rank(b.1) || (a.1 == b.1 && a.2 < b.2)))
}

/// The key under which the episode at `i` of an event is grouped.
pub open spec fn key_at(e: SonarrEventView, i: int) -> SonarrGroupKey {
    SonarrGroupKey(
        match e.series.id {
            Some(id) => id,
            None => 0,
        },
        effective_kind(e),
        e.episodes[i].season_number,
    )
}

/// The key of an event as a whole: that of its first episode, season 0 when it has none.
pub open spec fn event_key(e: SonarrEventView) -> SonarrGroupKey {
    if e.episodes.len() > 0 {
        key_at(e, 0)
    } else {
        SonarrGroupKey(
            match e.series.id {
                Some(id) => id,
                None => 0,
            },
            effective_kind(e),
            0,
        )
    }
}

pub fn kind_rank_of(k: SonarrEventType) -> (r: u8)
    ensures
        r as nat == kind_rank(k),
{
    match k {
        SonarrEventType::Test => 0,
        SonarrEventType::Grab => 1,
        SonarrEventType::Download => 2,
        SonarrEventType::Upgrade => 3,
        SonarrEventType::Rename => 4,
        SonarrEventType::SeriesAdd => 5,
        SonarrEventType::SeriesDelete => 6,
        SonarrEventType::EpisodeFileDelete => 7,
        SonarrEventType::Health => 8,
        SonarrEventType::ApplicationUpdate => 9,
        SonarrEventType::HealthRestored => 10,
        SonarrEventType::ManualInteractionRequired => 11,
    }
}

impl SonarrGroupKey {
    /// Whether `self` orders strictly before `other`.
    pub fn less_than(&self, other: &SonarrGroupKey) -> (r: bool)
        ensures
            r == key_lt(*self, *other),
    {
        if self.0 != other.0 {
            return self.0 < other.0;
        }
        let a = kind_rank_of(self.1);
        let b = kind_rank_of(other.1);
        if a != b {
            return a < b;
        }
        proof {
            assert(self.1 == other.1) by {
                assert(kind_rank(self.1) == kind_rank(other.1));
            }
        }
        self.2 < other.2
    }

    /// The key of the episode at `i` of an event.
    pub fn of_episode(e: &SonarrRequestBody, i: usize) -> (r: SonarrGroupKey)
        requires
            i < e@.episodes.len(),
        ensures
            r == key_at(e@, i as int),
    {
        let kind = match normalised_event_type(e.event_type, e.is_upgrade) {
            Some(k) => k,
            None => SonarrEventType::Test,
        };
        let id = match e.series.id {
            Some(id) => id,
            None => 0,
        };
        SonarrGroupKey(id, kind, e.episodes[i].season_number)
    }
}

impl<'a> From<&'a SonarrRequestBody> for SonarrGroupKey {
    fn from(e: &'a SonarrRequestBody) -> (r: SonarrGroupKey) {
        if e.episodes.len() > 0 {
            SonarrGroupKey::of_episode(e, 0)
        } else {
            let kind = match normalised_event_type(e.event_type, e.is_upgrade) {
                Some(k) => k,
                None => SonarrEventType::Test,
            };
            let id = match e.series.id {
                Some(id) => id,
                None => 0,
            };
            SonarrGroupKey(id, kind, 0)
        }
    }
}

impl<'a> vstd::std_specs::convert::FromSpecImpl<&'a SonarrRequestBody> for SonarrGroupKey {
    open spec fn obeys_from_spec() -> bool {
        true
    }

    open spec fn from_spec(e: &'a SonarrRequestBody) -> SonarrGroupKey {
        event_key(e@)
    }
}

} // verus!

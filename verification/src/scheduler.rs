//! Decisions of the background updater: when an update is due, which images
//! of a cycle are downloaded, which one becomes the wallpaper, and what the
//! frontend is told.

use vstd::prelude::*;
use crate::bing::{upgrade_to_uhd, uhd_url};
use crate::text::{append_str, str_eq};

verus! {

/// Payload of the `update-result` event sent to the frontend.
#[derive(Debug, Clone)]
pub struct UpdateResult {
    pub success: bool,
    pub message: String,
}

/// The wallpaper chosen during an update cycle: the first image that is on
/// disk (already or freshly downloaded), and the title reported.
pub struct LatestWallpaper {
    pub path: Option<std::path::PathBuf>,
    pub title: String,
}

/// What to do with one image of a cycle.
pub enum ImageStep {
    /// An image of its date is already stored: skip it.
    Skip,
    /// Download it from this URL.
    Download(String),
}

// ---------------------------------------------------------------------------
// Specifications
// ---------------------------------------------------------------------------

/// The seconds between automatic updates, `None` for manual updates.
pub open spec fn interval_secs(update_interval: Seq<char>) -> Option<u64> {
    if update_interval == "manual"@ {
        None
    } else if update_interval == "hourly"@ {
        Some(3600)
    } else {
        Some(86400)
    }
}

/// Seconds from `last` to `now`, zero when the clock went back.
pub open spec fn elapsed(now: u64, last: u64) -> int {
    if now >= last {
        now - last
    } else {
        0
    }
}

/// An automatic update is due: the interval is not manual and has elapsed
/// since the last successful update.
pub open spec fn update_due(update_interval: Seq<char>, now: u64, last: u64) -> bool {
    match interval_secs(update_interval) {
        Some(i) => elapsed(now, last) >= i,
        None => false,
    }
}

/// The URL an image is downloaded from: its UHD rendition when the
/// configured resolution is "UHD".
pub open spec fn download_url_of(resolution: Seq<char>, url: Seq<char>) -> Seq<char> {
    if resolution == "UHD"@ {
        uhd_url(url)
    } else {
        url
    }
}

/// The message reported for a successful cycle.
pub open spec fn updated_message(title: Seq<char>) -> Seq<char> {
    "壁纸已更新："@ + title
}

/// The frontend event for the outcome of a cycle (the title on success, the
/// error message on failure).
pub open spec fn result_of(outcome: Result<Seq<char>, Seq<char>>) -> (bool, Seq<char>) {
    match outcome {
        Ok(title) => (true, updated_message(title)),
        Err(e) => (false, e),
    }
}

// ---------------------------------------------------------------------------
// Executable functions
// ---------------------------------------------------------------------------

/// The seconds between automatic updates for an update-interval setting:
/// `None` for "manual", an hour for "hourly", a day for anything else.
pub fn update_interval_secs(update_interval: &str) -> (r: Option<u64>)
    ensures
        r == interval_secs(update_interval@),
{
    if str_eq(update_interval, "manual") {
        None
    } else if str_eq(update_interval, "hourly") {
        Some(3600)
    } else {
        Some(86400)
    }
}

/// Whether an automatic update is due at `now` (Unix seconds) when the last
/// successful update was at `last`.
pub fn is_update_due(update_interval: &str, now: u64, last: u64) -> (r: bool)
    ensures
        r == update_due(update_interval@, now, last),
{
    match update_interval_secs(update_interval) {
        None => false,
        Some(i) => now.saturating_sub(last) >= i,
    }
}

/// What to do with an image: skip it when its save path exists or an image
/// of its date is stored, else download it (in UHD when so configured).
pub fn plan_image(resolution: &str, url: &str, save_path_exists: bool, has_image_for_date: bool) -> (r: ImageStep)
    ensures
        save_path_exists || has_image_for_date ==> r is Skip,
        !(save_path_exists || has_image_for_date) ==> (r matches ImageStep::Download(u) && u@
            == download_url_of(resolution@, url@)),
{
    if save_path_exists || has_image_for_date {
        ImageStep::Skip
    } else if str_eq(resolution, "UHD") {
        ImageStep::Download(upgrade_to_uhd(url))
    } else {
        ImageStep::Download(url.to_string())
    }
}

impl LatestWallpaper {
    /// Nothing chosen yet.
    pub fn new() -> (r: Self)
        ensures
            r.path is None,
            r.title@ == Seq::<char>::empty(),
    {
        LatestWallpaper { path: None, title: String::new() }
    }

    /// An image was skipped because one of its date is stored. While nothing
    /// is chosen, its title is reported, and its save path is chosen when a
    /// file is there.
    pub fn note_skipped(&mut self, save_path: std::path::PathBuf, save_path_exists: bool, title: &str)
        ensures
            old(self).path is Some ==> *final(self) == *old(self),
            old(self).path is None ==> final(self).title@ == title@ && final(self).path == (
                if save_path_exists {
                    Some(save_path)
                } else {
                    None
                }),
    {
        if self.path.is_none() {
            if save_path_exists {
                self.path = Some(save_path);
            }
            self.title = title.to_string();
        }
    }

    /// An image was downloaded to `save_path` (`ok`) or its download failed.
    /// The first image downloaded while nothing is chosen is chosen.
    pub fn note_download(&mut self, save_path: std::path::PathBuf, ok: bool, title: &str)
        ensures
            (old(self).path is Some || !ok) ==> *final(self) == *old(self),
            (old(self).path is None && ok) ==> final(self).path == Some(save_path) && final(self).title@
                == title@,
    {
        if ok && self.path.is_none() {
            self.path = Some(save_path);
            self.title = title.to_string();
        }
    }
}

/// The message of a successful update.
pub fn update_message(title: &str) -> (r: String)
    ensures
        r@ == updated_message(title@),
{
    let mut r = "壁纸已更新：".to_string();
    append_str(&mut r, title);
    r
}

/// The `update-result` event for the outcome of a cycle.
pub fn cycle_result(outcome: Result<String, String>) -> (r: UpdateResult)
    ensures
        (r.success, r.message@) == result_of(
            match outcome {
                Ok(t) => Ok(t@),
                Err(e) => Err(e@),
            },
        ),
{
    match outcome {
        Ok(title) => UpdateResult { success: true, message: update_message(title.as_str()) },
        Err(e) => UpdateResult { success: false, message: e },
    }
}

/// An error message with a context prefix: `{context}{error}`.
pub fn with_context(context: &str, error: &str) -> (r: String)
    ensures
        r@ == context@ + error@,
{
    let mut r = context.to_string();
    append_str(&mut r, error);
    r
}

// ---------------------------------------------------------------------------
// The update cycle
// ---------------------------------------------------------------------------
// A cycle fetches the images, makes the storage directory, downloads the
// images, sets the chosen wallpaper and cleans up old files. The caller
// performs each action and reports what came of it; `cycle_step` decides
// what follows.

/// Where an update cycle stands.
#[derive(Debug, Clone, Copy)]
pub enum CycleStage {
    /// Waiting for the images fetched from Bing.
    Fetching,
    /// Waiting for the storage directory.
    PreparingDir,
    /// Waiting for the images to be downloaded or skipped.
    HandlingImages,
    /// Waiting for the wallpaper to be set.
    SettingWallpaper,
    /// Waiting for the cleanup of old files.
    CleaningUp,
    /// The cycle is over.
    Finished,
}

/// What the caller reports to the update cycle.
pub enum CycleEvent {
    /// The fetch gave this many images, or failed with this message.
    Fetched(Result<usize, String>),
    /// The storage directory is there, or could not be made.
    DirReady(Result<(), String>),
    /// Every image was handled; `true` when a wallpaper was chosen.
    ImagesHandled(bool),
    /// The wallpaper was set, or setting it failed with this message.
    WallpaperSet(Result<(), String>),
    /// The cleanup ran; whatever came of it does not count.
    CleanedUp,
}

/// What the caller does next.
pub enum CycleAction {
    PrepareDir,
    HandleImages,
    SetWallpaper,
    Cleanup,
    /// The cycle ends: `Ok` with the chosen wallpaper's title reported, or
    /// `Err` with this message.
    Done(Result<(), String>),
}

/// The event is the one the stage waits for.
pub open spec fn event_fits(stage: CycleStage, event: CycleEvent) -> bool {
    match stage {
        CycleStage::Fetching => event is Fetched,
        CycleStage::PreparingDir => event is DirReady,
        CycleStage::HandlingImages => event is ImagesHandled,
        CycleStage::SettingWallpaper => event is WallpaperSet,
        CycleStage::CleaningUp => event is CleanedUp,
        CycleStage::Finished => false,
    }
}

/// The cycle ends with an error carrying this message.
pub open spec fn fails_with(r: (CycleStage, CycleAction), message: Seq<char>) -> bool {
    &&& r.0 is Finished
    &&& r.1 matches CycleAction::Done(Err(m)) && m@ == message
}

/// One step of an update cycle: a failed fetch, an empty image list, a
/// storage directory that cannot be made and a failure to set the wallpaper
/// end the cycle with an error; the wallpaper is set only when one was
/// chosen; the cleanup's outcome never fails the cycle.
pub fn cycle_step(stage: CycleStage, event: CycleEvent) -> (r: (CycleStage, CycleAction))
    requires
        event_fits(stage, event),
    ensures
        match event {
            CycleEvent::Fetched(Err(e)) => fails_with(r, "获取 Bing 图片失败："@ + e@),
            CycleEvent::Fetched(Ok(n)) => if n == 0 {
                fails_with(r, "Bing API 未返回图片"@)
            } else {
                r.0 is PreparingDir && r.1 is PrepareDir
            },
            CycleEvent::DirReady(Err(e)) => fails_with(r, "创建存储目录失败："@ + e@),
            CycleEvent::DirReady(Ok(_)) => r.0 is HandlingImages && r.1 is HandleImages,
            CycleEvent::ImagesHandled(chosen) => if chosen {
                r.0 is SettingWallpaper && r.1 is SetWallpaper
            } else {
                r.0 is CleaningUp && r.1 is Cleanup
            },
            CycleEvent::WallpaperSet(Err(e)) => fails_with(r, "设置壁纸失败："@ + e@),
            CycleEvent::WallpaperSet(Ok(_)) => r.0 is CleaningUp && r.1 is Cleanup,
            CycleEvent::CleanedUp => r.0 is Finished && (r.1 matches CycleAction::Done(Ok(_))),
        },
{
    match event {
        CycleEvent::Fetched(Err(e)) => (
            CycleStage::Finished,
            CycleAction::Done(Err(with_context("获取 Bing 图片失败：", e.as_str()))),
        ),
        CycleEvent::Fetched(Ok(n)) => {
            if n == 0 {
                (CycleStage::Finished, CycleAction::Done(Err("Bing API 未返回图片".to_string())))
            } else {
                (CycleStage::PreparingDir, CycleAction::PrepareDir)
            }
        },
        CycleEvent::DirReady(Err(e)) => (
            CycleStage::Finished,
            CycleAction::Done(Err(with_context("创建存储目录失败：", e.as_str()))),
        ),
        CycleEvent::DirReady(Ok(_)) => (CycleStage::HandlingImages, CycleAction::HandleImages),
        CycleEvent::ImagesHandled(chosen) => {
            if chosen {
                (CycleStage::SettingWallpaper, CycleAction::SetWallpaper)
            } else {
                (CycleStage::CleaningUp, CycleAction::Cleanup)
            }
        },
        CycleEvent::WallpaperSet(Err(e)) => (
            CycleStage::Finished,
            CycleAction::Done(Err(with_context("设置壁纸失败：", e.as_str()))),
        ),
        CycleEvent::WallpaperSet(Ok(_)) => (CycleStage::CleaningUp, CycleAction::Cleanup),
        CycleEvent::CleanedUp => (CycleStage::Finished, CycleAction::Done(Ok(()))),
    }
}

// ---------------------------------------------------------------------------
// The background loop
// ---------------------------------------------------------------------------

/// What the background loop reports.
pub enum SchedulerEvent {
    /// The scheduler was started.
    Started,
    /// An update cycle ended.
    CycleFinished,
    /// The loop woke from its sleep; `running` is the scheduler's flag.
    Woke { running: bool },
    /// Whether an update was due when checked.
    Checked { due: bool },
}

/// What the background loop does next.
pub enum SchedulerAction {
    RunCycle,
    /// Sleep this many seconds.
    Sleep(u64),
    /// Load the configuration and check whether an update is due.
    CheckDue,
    Stop,
}

/// The seconds between two checks of the background loop: short, so that
/// an update missed while the system slept is made soon after it wakes.
pub open spec fn poll_secs() -> u64 {
    300
}

/// One step of the background loop: a cycle at once on start; then a check
/// every `poll_secs()` seconds while the scheduler runs, with a cycle when
/// an update is due.
pub fn scheduler_step(event: SchedulerEvent) -> (r: SchedulerAction)
    ensures
        match event {
            SchedulerEvent::Started => r is RunCycle,
            SchedulerEvent::CycleFinished => r == SchedulerAction::Sleep(poll_secs()),
            SchedulerEvent::Woke { running } => if running {
                r is CheckDue
            } else {
                r is Stop
            },
            SchedulerEvent::Checked { due } => if due {
                r is RunCycle
            } else {
                r == SchedulerAction::Sleep(poll_secs())
            },
        },
{
    match event {
        SchedulerEvent::Started => SchedulerAction::RunCycle,
        SchedulerEvent::CycleFinished => SchedulerAction::Sleep(300),
        SchedulerEvent::Woke { running } => {
            if running {
                SchedulerAction::CheckDue
            } else {
                SchedulerAction::Stop
            }
        },
        SchedulerEvent::Checked { due } => {
            if due {
                SchedulerAction::RunCycle
            } else {
                SchedulerAction::Sleep(300)
            }
        },
    }
}

// ---------------------------------------------------------------------------
// Laws
// ---------------------------------------------------------------------------

/// A manual update interval never triggers an automatic update.
pub proof fn lemma_manual_never_due(now: u64, last: u64)
    ensures
        !update_due("manual"@, now, last),
{
}

/// Once due, an update stays due as time goes on.
pub proof fn lemma_due_is_monotone(update_interval: Seq<char>, now: u64, later: u64, last: u64)
    requires
        now <= later,
        update_due(update_interval, now, last),
    ensures
        update_due(update_interval, later, last),
{
}

/// Right after an update (at `last`), no update is due until a full interval
/// has passed.
pub proof fn lemma_not_due_within_interval(update_interval: Seq<char>, now: u64, last: u64)
    requires
        interval_secs(update_interval) matches Some(i) && elapsed(now, last) < i,
    ensures
        !update_due(update_interval, now, last),
{
}

} // verus!

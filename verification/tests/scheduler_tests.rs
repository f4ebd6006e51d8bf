use x_viz::launch::{shows_window_at_launch, tray_action, TrayAction};
use x_viz::scheduler::{
    cycle_result, cycle_step, is_update_due, plan_image, update_interval_secs, update_message, with_context,
    scheduler_step, CycleAction, CycleEvent, CycleStage, ImageStep, LatestWallpaper, SchedulerAction,
    SchedulerEvent,
};
use std::path::PathBuf;

#[test]
fn intervals() {
    assert_eq!(update_interval_secs("manual"), None);
    assert_eq!(update_interval_secs("hourly"), Some(3600));
    assert_eq!(update_interval_secs("daily"), Some(86400));
    assert_eq!(update_interval_secs("weekly"), Some(86400));
}

#[test]
fn due_updates() {
    assert!(!is_update_due("manual", 1_000_000, 0));
    assert!(is_update_due("hourly", 3600, 0));
    assert!(!is_update_due("hourly", 3599, 0));
    assert!(is_update_due("daily", 86400 + 5, 5));
    assert!(!is_update_due("daily", 86400 + 4, 5));
    // A clock that went back counts as no time elapsed.
    assert!(!is_update_due("hourly", 10, 100_000));
}

#[test]
fn image_plans() {
    let url = "https://www.bing.com/th?id=OHR.Fox_1920x1080.jpg";
    assert!(matches!(plan_image("UHD", url, true, false), ImageStep::Skip));
    assert!(matches!(plan_image("UHD", url, false, true), ImageStep::Skip));
    match plan_image("UHD", url, false, false) {
        ImageStep::Download(u) => assert_eq!(u, "https://www.bing.com/th?id=OHR.Fox_UHD.jpg"),
        ImageStep::Skip => panic!("expected a download"),
    }
    match plan_image("1920x1080", url, false, false) {
        ImageStep::Download(u) => assert_eq!(u, url),
        ImageStep::Skip => panic!("expected a download"),
    }
}

#[test]
fn latest_wallpaper_first_choice_stays() {
    let mut latest = LatestWallpaper::new();
    latest.note_skipped(PathBuf::from("/a.jpg"), false, "A");
    assert!(latest.path.is_none());
    assert_eq!(latest.title, "A");
    latest.note_download(PathBuf::from("/b.jpg"), false, "B");
    assert!(latest.path.is_none());
    assert_eq!(latest.title, "A");
    latest.note_download(PathBuf::from("/c.jpg"), true, "C");
    assert_eq!(latest.path, Some(PathBuf::from("/c.jpg")));
    assert_eq!(latest.title, "C");
    latest.note_skipped(PathBuf::from("/d.jpg"), true, "D");
    latest.note_download(PathBuf::from("/e.jpg"), true, "E");
    assert_eq!(latest.path, Some(PathBuf::from("/c.jpg")));
    assert_eq!(latest.title, "C");
}

#[test]
fn latest_wallpaper_from_existing_file() {
    let mut latest = LatestWallpaper::new();
    latest.note_skipped(PathBuf::from("/a.jpg"), true, "A");
    assert_eq!(latest.path, Some(PathBuf::from("/a.jpg")));
    assert_eq!(latest.title, "A");
}

#[test]
fn results_of_cycles() {
    let ok = cycle_result(Ok("Fox".to_string()));
    assert!(ok.success);
    assert_eq!(ok.message, "壁纸已更新：Fox");
    let err = cycle_result(Err("boom".to_string()));
    assert!(!err.success);
    assert_eq!(err.message, "boom");
    assert_eq!(update_message(""), "壁纸已更新：");
    assert_eq!(with_context("获取 Bing 图片失败：", "timeout"), "获取 Bing 图片失败：timeout");
}

#[test]
fn tray_actions_and_launch_window() {
    assert_eq!(tray_action("update"), TrayAction::Update);
    assert_eq!(tray_action("settings"), TrayAction::OpenWindow);
    assert_eq!(tray_action("open_folder"), TrayAction::OpenFolder);
    assert_eq!(tray_action("quit"), TrayAction::Quit);
    assert_eq!(tray_action("other"), TrayAction::Ignore);
    assert!(shows_window_at_launch(true, true));
    assert!(shows_window_at_launch(false, false));
    assert!(!shows_window_at_launch(false, true));
}

fn failure(r: (CycleStage, CycleAction)) -> String {
    assert!(matches!(r.0, CycleStage::Finished));
    match r.1 {
        CycleAction::Done(Err(m)) => m,
        _ => panic!("expected a failed cycle"),
    }
}

#[test]
fn update_cycle_steps() {
    let r = cycle_step(CycleStage::Fetching, CycleEvent::Fetched(Ok(3)));
    assert!(matches!(r, (CycleStage::PreparingDir, CycleAction::PrepareDir)));
    let r = cycle_step(CycleStage::PreparingDir, CycleEvent::DirReady(Ok(())));
    assert!(matches!(r, (CycleStage::HandlingImages, CycleAction::HandleImages)));
    let r = cycle_step(CycleStage::HandlingImages, CycleEvent::ImagesHandled(true));
    assert!(matches!(r, (CycleStage::SettingWallpaper, CycleAction::SetWallpaper)));
    let r = cycle_step(CycleStage::HandlingImages, CycleEvent::ImagesHandled(false));
    assert!(matches!(r, (CycleStage::CleaningUp, CycleAction::Cleanup)));
    let r = cycle_step(CycleStage::SettingWallpaper, CycleEvent::WallpaperSet(Ok(())));
    assert!(matches!(r, (CycleStage::CleaningUp, CycleAction::Cleanup)));
    let r = cycle_step(CycleStage::CleaningUp, CycleEvent::CleanedUp);
    assert!(matches!(r, (CycleStage::Finished, CycleAction::Done(Ok(())))));
}

#[test]
fn update_cycle_failures() {
    assert_eq!(
        failure(cycle_step(CycleStage::Fetching, CycleEvent::Fetched(Err("timeout".to_string())))),
        "获取 Bing 图片失败：timeout"
    );
    assert_eq!(failure(cycle_step(CycleStage::Fetching, CycleEvent::Fetched(Ok(0)))), "Bing API 未返回图片");
    assert_eq!(
        failure(cycle_step(CycleStage::PreparingDir, CycleEvent::DirReady(Err("denied".to_string())))),
        "创建存储目录失败：denied"
    );
    assert_eq!(
        failure(cycle_step(CycleStage::SettingWallpaper, CycleEvent::WallpaperSet(Err("no desktop".to_string())))),
        "设置壁纸失败：no desktop"
    );
}

#[test]
fn background_loop_steps() {
    assert!(matches!(scheduler_step(SchedulerEvent::Started), SchedulerAction::RunCycle));
    assert!(matches!(scheduler_step(SchedulerEvent::CycleFinished), SchedulerAction::Sleep(300)));
    assert!(matches!(scheduler_step(SchedulerEvent::Woke { running: true }), SchedulerAction::CheckDue));
    assert!(matches!(scheduler_step(SchedulerEvent::Woke { running: false }), SchedulerAction::Stop));
    assert!(matches!(scheduler_step(SchedulerEvent::Checked { due: true }), SchedulerAction::RunCycle));
    assert!(matches!(scheduler_step(SchedulerEvent::Checked { due: false }), SchedulerAction::Sleep(300)));
}

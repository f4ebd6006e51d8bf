use x_viz::platform::linux::{
    after_command, command_outcome, current_wallpaper_query as linux_query, NextStep, desktop_env_from, desktop_env_of,
    get_current_wallpaper as linux_current, set_wallpaper as linux_set, DesktopEnv,
};
use x_viz::platform::macos::{
    current_wallpaper_query as mac_query, get_current_wallpaper as mac_current,
    set_wallpaper as mac_set, set_wallpaper_outcome as mac_outcome,
};
use x_viz::platform::windows::{
    current_wallpaper_query as win_query, first_line_with, get_current_wallpaper as win_current,
    set_wallpaper as win_set, set_wallpaper_outcome as win_outcome, to_utf16,
};
use x_viz::platform::{CommandOutput, PlatformError};

fn out(success: bool, stdout: &str, stderr: &str) -> CommandOutput {
    CommandOutput { success, stdout: stdout.to_string(), stderr: stderr.to_string() }
}

fn kind(de: &DesktopEnv) -> String {
    format!("{:?}", de)
}

#[test]
fn desktops_from_environment() {
    let d = |s: &str, g: bool| kind(&desktop_env_from(s, &s.to_lowercase(), g));
    assert_eq!(d("ubuntu:GNOME", true), "Gnome");
    assert_eq!(d("Unity", true), "Gnome");
    assert_eq!(d("KDE", true), "Kde");
    assert_eq!(d("XFCE", true), "Xfce");
    assert_eq!(d("sway", true), "Sway");
    assert_eq!(d("Hyprland", true), "Hyprland");
    assert_eq!(d("X-Cinnamon", true), "Cinnamon");
    assert_eq!(d("MATE", true), "Mate");
    assert_eq!(d("", true), "Unknown(\"unknown-graphical\")");
    assert_eq!(d("", false), "Unknown(\"headless\")");
    assert_eq!(d("LXQt", false), "Unknown(\"LXQt\")");
}

#[test]
fn linux_commands() {
    let cmds = linux_set(Some("/p/a.jpg"), &DesktopEnv::Gnome).ok().unwrap();
    assert_eq!(cmds.len(), 2);
    assert_eq!(cmds[0].command.program, "gsettings");
    assert_eq!(
        cmds[0].command.args,
        vec!["set", "org.gnome.desktop.background", "picture-uri", "file:///p/a.jpg"]
    );
    assert!(cmds[0].required);
    assert_eq!(cmds[1].command.args[2], "picture-uri-dark");
    assert!(!cmds[1].required);

    let kde = linux_set(Some("/p/a.jpg"), &DesktopEnv::Kde).ok().unwrap();
    assert_eq!(kde[0].command.program, "plasma-apply-wallpaperimage");
    assert_eq!(kde[0].command.args, vec!["/p/a.jpg"]);

    let sway = linux_set(Some("/p/a.jpg"), &DesktopEnv::Hyprland).ok().unwrap();
    assert_eq!(sway[0].command.program, "swaybg");
    assert_eq!(sway[0].command.args, vec!["-i", "/p/a.jpg", "-m", "fill"]);

    let mate = linux_set(Some("/p/a.jpg"), &DesktopEnv::Mate).ok().unwrap();
    assert_eq!(mate[0].command.args, vec!["set", "org.mate.background", "picture-filename", "/p/a.jpg"]);

    let xfce = linux_set(Some("/p/a.jpg"), &DesktopEnv::Xfce).ok().unwrap();
    assert_eq!(xfce[0].command.program, "xfconf-query");
    assert_eq!(xfce[0].command.args[5], "/p/a.jpg");
}

#[test]
fn linux_errors() {
    match linux_set(None, &DesktopEnv::Gnome) {
        Err(PlatformError::SetWallpaper(m)) => assert_eq!(m, "Invalid path encoding"),
        _ => panic!("expected SetWallpaper"),
    }
    match linux_set(Some("/a"), &DesktopEnv::Unknown("headless".to_string())) {
        Err(e @ PlatformError::UnsupportedDesktop(_)) => {
            assert_eq!(e.message(), "Unsupported desktop environment: headless")
        }
        _ => panic!("expected UnsupportedDesktop"),
    }
    match command_outcome("swaybg", Err("not found".to_string())) {
        Err(PlatformError::CommandFailed(m)) => assert_eq!(m, "swaybg: not found"),
        _ => panic!("expected CommandFailed"),
    }
    match command_outcome("swaybg", Ok(out(false, "", "bad"))) {
        Err(e @ PlatformError::CommandFailed(_)) => {
            assert_eq!(e.message(), "Command execution failed: swaybg failed: bad")
        }
        _ => panic!("expected CommandFailed"),
    }
    assert!(command_outcome("swaybg", Ok(out(true, "", ""))).is_ok());
}

#[test]
fn linux_current_wallpaper() {
    assert!(linux_query(&DesktopEnv::Kde).is_none());
    let q = linux_query(&DesktopEnv::Cinnamon).unwrap();
    assert_eq!(q.args, vec!["get", "org.gnome.desktop.background", "picture-uri"]);
    assert_eq!(
        linux_current(Ok(out(true, "'file:///home/u/a.jpg'\n", ""))).ok().unwrap(),
        Some("/home/u/a.jpg".to_string())
    );
    assert_eq!(linux_current(Ok(out(true, "''\n", ""))).ok().unwrap(), None);
    assert_eq!(linux_current(Ok(out(false, "x", ""))).ok().unwrap(), None);
    assert!(linux_current(Err("spawn".to_string())).is_err());
}

#[test]
fn macos_scripts_and_outcomes() {
    let c = mac_set(Some("/p/a.jpg")).ok().unwrap();
    assert_eq!(c.program, "osascript");
    assert_eq!(c.args[0], "-e");
    assert_eq!(
        c.args[1],
        "tell application \"System Events\"\n    tell every desktop\n        set picture to POSIX file \"/p/a.jpg\"\n    end tell\nend tell"
    );
    assert!(mac_set(None).is_err());
    assert!(mac_outcome(Ok(out(true, "", ""))).is_ok());
    match mac_outcome(Ok(out(false, "", "denied"))) {
        Err(PlatformError::SetWallpaper(m)) => assert_eq!(m, "osascript failed: denied"),
        _ => panic!("expected SetWallpaper"),
    }
    match mac_outcome(Err("missing".to_string())) {
        Err(PlatformError::CommandFailed(m)) => assert_eq!(m, "osascript: missing"),
        _ => panic!("expected CommandFailed"),
    }
    let q = mac_query();
    assert!(q.args[1].contains("tell current desktop"));
    assert_eq!(mac_current(Ok(out(true, " /p/a.jpg \n", ""))).ok().unwrap(), Some("/p/a.jpg".to_string()));
    assert_eq!(mac_current(Ok(out(true, "\n", ""))).ok().unwrap(), None);
    assert_eq!(mac_current(Ok(out(false, "/x", ""))).ok().unwrap(), None);
}

#[test]
fn windows_paths_and_registry() {
    assert_eq!(to_utf16("a€😀"), vec![0x61, 0x20AC, 0xD83D, 0xDE00]);
    assert_eq!(win_set(Some("C:\\a.jpg")).ok().unwrap(), {
        let mut w: Vec<u16> = "C:\\a.jpg".encode_utf16().collect();
        w.push(0);
        w
    });
    assert!(win_set(None).is_err());
    assert!(win_outcome(1).is_ok());
    match win_outcome(0) {
        Err(PlatformError::SetWallpaper(m)) => assert_eq!(m, "SystemParametersInfoW returned 0"),
        _ => panic!("expected SetWallpaper"),
    }
    let q = win_query();
    assert_eq!(q.program, "reg");
    assert_eq!(q.args, vec!["query", "HKCU\\Control Panel\\Desktop", "/v", "Wallpaper"]);
    let stdout = "\r\nHKEY_CURRENT_USER\\Control Panel\\Desktop\r\n    Wallpaper    REG_SZ    C:\\w\\a.jpg\r\n\r\n";
    assert_eq!(win_current(Ok(out(true, stdout, ""))).ok().unwrap(), Some("C:\\w\\a.jpg".to_string()));
    assert_eq!(win_current(Ok(out(true, "    Wallpaper    REG_SZ    \r\n", ""))).ok().unwrap(), None);
    assert_eq!(win_current(Ok(out(true, "nothing here", ""))).ok().unwrap(), None);
    assert_eq!(win_current(Ok(out(false, stdout, ""))).ok().unwrap(), None);
    match win_current(Err("denied".to_string())) {
        Err(PlatformError::CommandFailed(m)) => assert_eq!(m, "reg query: denied"),
        _ => panic!("expected CommandFailed"),
    }
    assert_eq!(first_line_with("a\r\nbWx\r\nc", "W"), Some("bWx".to_string()));
    assert_eq!(first_line_with("a\nb", "z"), None);
    assert_eq!(first_line_with("tail\r", "tail"), Some("tail\r".to_string()));
}

#[test]
fn desktops_matched_in_lower_case() {
    assert_eq!(kind(&desktop_env_of("GNOME", true)), "Gnome");
    assert_eq!(kind(&desktop_env_of("KDE", false)), "Kde");
    assert_eq!(kind(&desktop_env_of("", false)), "Unknown(\"headless\")");
}

#[test]
fn command_outcomes_combine() {
    assert!(matches!(after_command(true, Ok(())), NextStep::RunNext));
    assert!(matches!(after_command(false, Ok(())), NextStep::RunNext));
    assert!(matches!(
        after_command(false, Err(PlatformError::CommandFailed("x".to_string()))),
        NextStep::RunNext
    ));
    match after_command(true, Err(PlatformError::CommandFailed("x".to_string()))) {
        NextStep::Fail(PlatformError::CommandFailed(m)) => assert_eq!(m, "x"),
        _ => panic!("expected the change to fail"),
    }
    assert_eq!(DesktopEnv::Gnome, DesktopEnv::Gnome);
    assert_ne!(DesktopEnv::Kde, DesktopEnv::Unknown("kde".to_string()));
}

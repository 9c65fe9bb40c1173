use gd_icon_renderer::constants::gamemode;
use gd_icon_renderer::constants::icon_name;

#[test]
fn gamemodes_of_the_table() {
    let expected = [
        ("cube", "player_", false),
        ("ship", "ship_", false),
        ("ball", "player_ball_", false),
        ("ufo", "bird_", false),
        ("wave", "dart_", false),
        ("robot", "robot_", true),
        ("spider", "spider_", true),
    ];
    for (name, prefix, zany) in expected {
        let mode = gamemode(name).unwrap();
        assert_eq!(mode.prefix, prefix);
        assert_eq!(mode.zany, zany);
    }
}

#[test]
fn unknown_gamemodes() {
    assert!(gamemode("").is_none());
    assert!(gamemode("Cube").is_none());
    assert!(gamemode("swing").is_none());
    assert!(gamemode("cube ").is_none());
}

#[test]
fn icon_names_have_two_digits_at_least() {
    assert_eq!(icon_name("player_", 5), "player_05");
    assert_eq!(icon_name("player_", 0), "player_00");
    assert_eq!(icon_name("spider_", 16), "spider_16");
    assert_eq!(icon_name("ship_", 10), "ship_10");
    assert_eq!(icon_name("ship_", 123), "ship_123");
    assert_eq!(icon_name("", 2147483647), "2147483647");
    assert_eq!(icon_name("dart_", -3), "dart_-3");
    assert_eq!(icon_name("dart_", -12), "dart_-12");
    assert_eq!(icon_name("x", i32::MIN), "x-2147483648");
}

#[test]
fn icon_names_are_what_formatting_gives() {
    for icon in [-100, -10, -9, -1, 0, 1, 9, 10, 11, 99, 100, 101, 4096] {
        assert_eq!(icon_name("p", icon), format!("p{:02}", icon));
    }
}

use anistream::menu::{anime_menu_text, episode_menu_text, selected_anime_id, selected_episode};
use anistream::player::default_video_player;

#[test]
fn anime_menu_has_one_line_per_result() {
    let entries = vec![
        ("abc".to_string(), "One (12 episodes)".to_string()),
        ("d_9".to_string(), "Two (null episodes)".to_string()),
    ];
    assert_eq!(
        anime_menu_text(&entries),
        "abc - One (12 episodes)\nd_9 - Two (null episodes)\n"
    );
    assert_eq!(anime_menu_text(&Vec::new()), "");
}

#[test]
fn episode_menu_has_one_line_per_episode() {
    let episodes = vec!["3".to_string(), "2".to_string(), "1".to_string()];
    assert_eq!(episode_menu_text(&episodes), "3\n2\n1\n");
}

#[test]
fn picked_menu_line_gives_its_id() {
    assert_eq!(
        selected_anime_id(true, "ReooPAxPMsHM4KPMY - One Piece (12 episodes)\n"),
        Some("ReooPAxPMsHM4KPMY".to_string())
    );
    assert_eq!(selected_anime_id(true, "d_9 - x"), Some("d_9".to_string()));
}

#[test]
fn picked_line_without_id_gives_nothing() {
    assert_eq!(selected_anime_id(true, ""), None);
    assert_eq!(selected_anime_id(true, " - name"), None);
    assert_eq!(selected_anime_id(true, "a-b - name"), None);
    assert_eq!(selected_anime_id(true, "abc-name"), None);
    assert_eq!(selected_anime_id(false, "abc - name"), None);
}

#[test]
fn picked_episode_is_trimmed() {
    assert_eq!(selected_episode(true, " 12\n"), Some("12".to_string()));
    assert_eq!(selected_episode(true, ""), Some("".to_string()));
    assert_eq!(selected_episode(false, "12\n"), None);
}

#[test]
fn default_player_depends_on_platform() {
    assert_eq!(default_video_player("macos", "aarch64"), "iina");
    assert_eq!(default_video_player("macos", "x86_64"), "vlc");
    assert_eq!(default_video_player("linux", "x86_64"), "vlc");
    assert_eq!(default_video_player("linux", "aarch64"), "vlc");
}

#[test]
fn picked_line_of_result_without_id_gives_nothing() {
    let entries = vec![("".to_string(), "NoId (3 episodes)".to_string())];
    let menu = anime_menu_text(&entries);
    assert_eq!(menu, " - NoId (3 episodes)\n");
    assert_eq!(selected_anime_id(true, &menu), None);
}

use cornetroll::{build_content, process_meta_format, TagSnapshot};

fn tags() -> TagSnapshot {
    TagSnapshot { artists: None, album: None, album_artists: None, title: None, track: None }
}

fn list(items: &[&str]) -> Option<Vec<String>> {
    Some(items.iter().map(|s| s.to_string()).collect())
}

fn render(format: &str, tags: &TagSnapshot) -> String {
    build_content(&process_meta_format(format).unwrap(), tags)
}

#[test]
fn absent_artist_drops_its_group() {
    let t = TagSnapshot { title: Some("X".to_string()), ..tags() };
    assert_eq!(render("<[artist] - >[title]", &t), "X");
}

#[test]
fn present_artist_keeps_its_group() {
    let t = TagSnapshot { artists: list(&["A"]), title: Some("X".to_string()), ..tags() };
    assert_eq!(render("<[artist] - >[title]", &t), "A - X");
}

#[test]
fn absent_tag_outside_group_shows_placeholder() {
    assert_eq!(render("[album] / [track] / [artists]", &tags()), "N/A / N/A / N/A");
    let t = TagSnapshot { artists: list(&["", "B"]), title: Some(String::new()), ..tags() };
    assert_eq!(render("[artist]|[title]", &t), "N/A|N/A");
}

#[test]
fn tags_render_their_values() {
    let t = TagSnapshot {
        artists: list(&["A", "B", "C"]),
        album: Some("Al".to_string()),
        album_artists: list(&["V", "W"]),
        title: Some("T".to_string()),
        track: Some(-12),
    };
    assert_eq!(render("[artists]; [artist]; [album]; [album_artist]; [title]; [track]", &t),
        "A, B, C; A; Al; V; T; -12");
    let t = TagSnapshot { track: Some(7), ..tags() };
    assert_eq!(render("#[track]", &t), "#7");
}

#[test]
fn absent_tag_discards_pending_text() {
    let t = TagSnapshot { artists: list(&["A"]), title: Some("T".to_string()), ..tags() };
    assert_eq!(render("<[artist] - [album] / >[title]", &t), "AT");
    let t = TagSnapshot { artists: list(&["A"]), album: Some("B".to_string()), ..tags() };
    assert_eq!(render("<([artist] - [album])>", &t), "(A - B)");
}

#[test]
fn nested_group_text_is_literal_of_parent() {
    let t = TagSnapshot { album: Some("B".to_string()), ..tags() };
    assert_eq!(render("<<[album]> x [title]>!", &t), "!");
    assert_eq!(render("<<[album]> x [album]>!", &t), "B x B!");
    assert_eq!(render("<<[title]>x>", &t), "");
}

#[test]
fn trailing_white_space_is_trimmed() {
    let t = TagSnapshot { title: Some("T".to_string()), ..tags() };
    assert_eq!(render("<[title] - >  ", &t), "T -");
}

use slideshow::playlist::{Playlist, HISTORY_CAPACITY};

#[test]
fn test_playlist_basic() {
    let images = vec![
        "img1.jpg".to_string(),
        "img2.jpg".to_string(),
        "img3.jpg".to_string(),
    ];

    let mut playlist = Playlist::new(images.clone());

    assert!(playlist.current().is_some());
    assert_eq!(playlist.total_count(), 3);
    assert_eq!(playlist.current_position(), 1);

    let (img, should_count) = playlist.advance();
    assert!(img.is_some());
    assert!(should_count);
    assert_eq!(playlist.current_position(), 2);

    let (img, should_count) = playlist.advance();
    assert!(img.is_some());
    assert!(should_count);
    assert_eq!(playlist.current_position(), 3);

    let (img, should_count) = playlist.advance();
    assert!(img.is_some());
    assert!(should_count);
    assert_eq!(playlist.current_position(), 1);
}

#[test]
fn test_playlist_history() {
    let images = vec![
        "img1.jpg".to_string(),
        "img2.jpg".to_string(),
        "img3.jpg".to_string(),
    ];

    let mut playlist = Playlist::new(images);

    assert!(!playlist.can_go_back());

    let (_, should_count1) = playlist.advance();
    let (_, should_count2) = playlist.advance();
    assert!(should_count1);
    assert!(should_count2);

    assert!(playlist.can_go_back());

    playlist.go_back();
    assert!(playlist.can_go_back());

    let (_, should_count) = playlist.advance();
    assert!(!should_count);

    playlist.go_back();
    assert!(playlist.can_go_back());
}

#[test]
fn test_playlist_update() {
    let images = vec!["img1.jpg".to_string(), "img2.jpg".to_string()];

    let mut playlist = Playlist::new(images);
    assert_eq!(playlist.total_count(), 2);

    playlist.update_images(vec!["img3.jpg".to_string()], vec![]);
    assert_eq!(playlist.total_count(), 3);

    playlist.update_images(vec![], vec!["img2.jpg".to_string()]);
    assert_eq!(playlist.total_count(), 2);
}

#[test]
fn test_new_keeps_all_paths() {
    let images = vec![
        "a.jpg".to_string(),
        "b.jpg".to_string(),
        "c.jpg".to_string(),
        "d.jpg".to_string(),
    ];
    let playlist = Playlist::new(images.clone());
    let mut shuffled = playlist.get_state().shuffled_list;
    shuffled.sort();
    let mut expected = images;
    expected.sort();
    assert_eq!(shuffled, expected);
}

#[test]
fn test_history_stays_bounded() {
    let images = vec![
        "a.jpg".to_string(),
        "b.jpg".to_string(),
        "c.jpg".to_string(),
    ];
    let mut playlist = Playlist::new(images);
    let mut i: usize = 0;
    while i < 250 {
        let (img, _) = playlist.advance();
        assert!(img.is_some());
        assert!(playlist.history.len() <= HISTORY_CAPACITY);
        i += 1;
    }
    assert_eq!(playlist.history.len(), HISTORY_CAPACITY);
}

#[test]
fn test_undo_redo_restores_state() {
    let images = vec![
        "a.jpg".to_string(),
        "b.jpg".to_string(),
        "c.jpg".to_string(),
    ];
    let mut playlist = Playlist::new(images);
    playlist.advance();
    let (second, counted) = playlist.advance();
    assert!(counted);
    let position = playlist.current_position();

    playlist.go_back();
    assert_ne!(playlist.current_position(), position);
    let (replayed, counted) = playlist.advance();
    assert!(!counted);
    assert_eq!(replayed, second);
    assert_eq!(playlist.current_position(), position);
}

#[test]
fn test_wrap_cycles_through_order() {
    // items [x, y, z] starting at position 1: three advances show
    // positions 2, 3 and 1 of the order, wrapping exactly on the third
    let items = vec!["x.jpg".to_string(), "y.jpg".to_string(), "z.jpg".to_string()];
    let mut playlist = Playlist::from_state(items, 0);
    assert_eq!(playlist.current_position(), 1);

    let (_, c1) = playlist.advance();
    assert_eq!(playlist.current_position(), 2);
    let (_, c2) = playlist.advance();
    assert_eq!(playlist.current_position(), 3);
    let (_, c3) = playlist.advance();
    assert_eq!(playlist.current_position(), 1);
    assert!(c1 && c2 && c3);
}

#[test]
fn test_from_state_clamps_cursor() {
    let items = vec!["a.jpg".to_string(), "b.jpg".to_string()];
    let playlist = Playlist::from_state(items, 10);
    assert_eq!(playlist.current_position(), 2);
    assert!(!playlist.can_go_back());
}

#[test]
fn test_empty_playlist() {
    let mut playlist = Playlist::new(vec![]);
    assert!(playlist.is_empty());
    assert_eq!(playlist.total_count(), 0);
    assert_eq!(playlist.current_position(), 0);
    assert!(playlist.current().is_none());
    let (img, counted) = playlist.advance();
    assert!(img.is_none());
    assert!(!counted);
    assert!(playlist.go_back().is_none());
    assert!(playlist.prefetch_candidates(5).is_empty());
}

#[test]
fn test_peek_and_prefetch_window() {
    let items = vec!["a.jpg".to_string(), "b.jpg".to_string(), "c.jpg".to_string()];
    let playlist = Playlist::from_state(items, 0);
    assert_eq!(playlist.peek_next_n(1).unwrap(), "b.jpg");
    assert_eq!(playlist.peek_next_n(2).unwrap(), "c.jpg");
    assert_eq!(playlist.peek_next_n(3).unwrap(), "a.jpg");
    let window = playlist.prefetch_candidates(5);
    assert_eq!(window, vec!["b.jpg", "c.jpg", "a.jpg", "b.jpg", "c.jpg"]);
}

#[test]
fn test_update_images_keeps_survivor_order() {
    let items = vec![
        "a.jpg".to_string(),
        "b.jpg".to_string(),
        "c.jpg".to_string(),
        "d.jpg".to_string(),
    ];
    let mut playlist = Playlist::from_state(items, 3);
    playlist.update_images(vec![], vec!["b.jpg".to_string()]);
    let state = playlist.get_state();
    assert_eq!(state.shuffled_list, vec!["a.jpg", "c.jpg", "d.jpg"]);
    // the cursor was clamped onto the last valid index
    assert_eq!(playlist.current_position(), 3);
    assert!(!playlist.can_go_back());
}

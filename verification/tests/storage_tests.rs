use color_picker::color::Rgb;
use color_picker::storage::{
    AppSettings, ColorCollections, ToastDuration, DEFAULT_PALETTE_LIMIT, FAVORITES_LIMIT,
    PALETTE_LIMIT_OPTIONS,
};

fn gray(v: u8) -> Rgb {
    Rgb::new(v, v, v)
}

#[test]
fn toast_durations() {
    assert_eq!(ToastDuration::default(), ToastDuration::Normal);
    let labels: Vec<&str> = ToastDuration::OPTIONS.iter().map(|d| d.label()).collect();
    assert_eq!(labels, vec!["Short", "Normal", "Long"]);
    let millis: Vec<u64> = ToastDuration::OPTIONS.iter().map(|d| d.millis()).collect();
    assert_eq!(millis, vec![1200, 2000, 3500]);
}

#[test]
fn settings_fall_back_to_the_default_limit() {
    let settings = AppSettings::default();
    assert_eq!(settings.palette_limit(), DEFAULT_PALETTE_LIMIT);
    assert_eq!(settings.toast_duration(), ToastDuration::Normal);
    for limit in PALETTE_LIMIT_OPTIONS {
        assert_eq!(AppSettings::from_stored(limit, ToastDuration::Long).palette_limit(), limit);
    }
    let odd = AppSettings::from_stored(20, ToastDuration::Short);
    assert_eq!(odd.palette_limit(), 18);
    assert_eq!(odd.stored_palette_limit(), 20);
    assert_eq!(odd.toast_duration(), ToastDuration::Short);
    assert_eq!(AppSettings::from_stored(0, ToastDuration::Short).palette_limit(), 18);
}

#[test]
fn default_collections_are_empty() {
    let c = ColorCollections::default();
    assert!(c.palette().is_empty());
    assert!(c.favorites().is_empty());
    assert_eq!(c.settings().palette_limit(), 18);
}

#[test]
fn used_colors_move_to_the_front() {
    let mut c = ColorCollections::default();
    c.add_palette_color(gray(1));
    c.add_palette_color(gray(2));
    c.add_palette_color(gray(3));
    assert_eq!(c.palette(), &[gray(3), gray(2), gray(1)]);
    c.add_palette_color(gray(1));
    assert_eq!(c.palette(), &[gray(1), gray(3), gray(2)]);
    c.add_palette_color(gray(1));
    assert_eq!(c.palette(), &[gray(1), gray(3), gray(2)]);
}

#[test]
fn palette_is_cut_to_its_limit() {
    let mut c = ColorCollections::default();
    for v in 0..30u8 {
        c.add_palette_color(gray(v));
    }
    assert_eq!(c.palette().len(), 18);
    assert_eq!(c.palette()[0], gray(29));
    assert_eq!(c.palette()[17], gray(12));
}

#[test]
fn palette_limit_can_only_take_an_option() {
    let mut c = ColorCollections::default();
    for v in 0..30u8 {
        c.add_palette_color(gray(v));
    }
    c.set_palette_limit(20);
    assert_eq!(c.settings().palette_limit(), 18);
    assert_eq!(c.palette().len(), 18);
    c.set_palette_limit(12);
    assert_eq!(c.settings().palette_limit(), 12);
    assert_eq!(c.palette().len(), 12);
    assert_eq!(c.palette()[0], gray(29));
    c.set_palette_limit(36);
    assert_eq!(c.palette().len(), 12);
    for v in 100..140u8 {
        c.add_palette_color(gray(v));
    }
    assert_eq!(c.palette().len(), 36);
}

#[test]
fn toast_duration_is_stored() {
    let mut c = ColorCollections::default();
    c.set_toast_duration(ToastDuration::Long);
    assert_eq!(c.settings().toast_duration(), ToastDuration::Long);
}

#[test]
fn clearing() {
    let mut c = ColorCollections::default();
    c.add_palette_color(gray(1));
    c.toggle_favorite(gray(2));
    c.clear_palette();
    assert!(c.palette().is_empty());
    assert_eq!(c.favorites(), &[gray(2)]);
    c.add_palette_color(gray(1));
    c.clear_favorites();
    assert!(c.favorites().is_empty());
    assert_eq!(c.palette(), &[gray(1)]);
}

#[test]
fn toggling_favorites() {
    let mut c = ColorCollections::default();
    assert!(c.toggle_favorite(gray(1)));
    assert!(c.toggle_favorite(gray(2)));
    assert_eq!(c.favorites(), &[gray(2), gray(1)]);
    assert!(c.is_favorite(gray(1)));
    assert!(!c.toggle_favorite(gray(1)));
    assert!(!c.is_favorite(gray(1)));
    assert_eq!(c.favorites(), &[gray(2)]);
}

#[test]
fn toggling_twice_restores_the_favorites() {
    let mut c = ColorCollections::default();
    for v in 0..10u8 {
        c.toggle_favorite(gray(v));
    }
    let before = c.favorites().to_vec();
    c.toggle_favorite(gray(200));
    c.toggle_favorite(gray(200));
    assert_eq!(c.favorites(), before.as_slice());
}

#[test]
fn favorites_are_cut_to_their_limit() {
    let mut c = ColorCollections::default();
    for v in 0..60u8 {
        assert!(c.toggle_favorite(gray(v)));
    }
    assert_eq!(c.favorites().len(), FAVORITES_LIMIT);
    assert_eq!(c.favorites()[0], gray(59));
    assert_eq!(c.favorites()[47], gray(12));
}

#[test]
fn removing_favorites() {
    let mut c = ColorCollections::default();
    c.toggle_favorite(gray(1));
    c.toggle_favorite(gray(2));
    c.remove_favorite(gray(3));
    assert_eq!(c.favorites(), &[gray(2), gray(1)]);
    c.remove_favorite(gray(1));
    assert_eq!(c.favorites(), &[gray(2)]);
    assert!(!c.is_favorite(gray(1)));
}

#[test]
fn restored_collections_are_normalized() {
    let palette: Vec<Rgb> = (0..30u8).map(gray).collect();
    let favorites = vec![gray(1), gray(1)];
    let c = ColorCollections::from_parts(
        palette.clone(),
        favorites.clone(),
        AppSettings::from_stored(7, ToastDuration::Short),
    );
    assert_eq!(c.settings().stored_palette_limit(), 18);
    assert_eq!(c.settings().toast_duration(), ToastDuration::Short);
    assert_eq!(c.palette(), &palette[..18]);
    assert_eq!(c.favorites(), favorites.as_slice());
    let c = ColorCollections::from_parts(
        palette.clone(),
        vec![],
        AppSettings::from_stored(36, ToastDuration::Long),
    );
    assert_eq!(c.palette(), palette.as_slice());
    assert_eq!(c.settings().stored_palette_limit(), 36);
}

#[test]
fn removing_a_duplicated_favorite_removes_its_first_occurrence() {
    let mut c = ColorCollections::from_parts(
        vec![],
        vec![gray(1), gray(2), gray(1)],
        AppSettings::default(),
    );
    assert!(!c.toggle_favorite(gray(1)));
    assert_eq!(c.favorites(), &[gray(2), gray(1)]);
    assert!(c.is_favorite(gray(1)));
}

#[test]
fn clone_is_equal() {
    let mut c = ColorCollections::default();
    c.add_palette_color(gray(4));
    c.toggle_favorite(gray(5));
    let d = c.clone();
    assert_eq!(d.palette(), c.palette());
    assert_eq!(d.favorites(), c.favorites());
}

#[test]
fn restoring_saved_parts_gives_the_same_collections() {
    let mut c = ColorCollections::default();
    c.set_palette_limit(12);
    c.set_toast_duration(ToastDuration::Short);
    for v in 0..20u8 {
        c.add_palette_color(gray(v));
    }
    c.toggle_favorite(gray(3));
    let restored = ColorCollections::from_parts(
        c.palette().to_vec(),
        c.favorites().to_vec(),
        AppSettings::from_stored(c.settings().stored_palette_limit(), c.settings().toast_duration()),
    );
    assert_eq!(restored.palette(), c.palette());
    assert_eq!(restored.favorites(), c.favorites());
    assert_eq!(restored.settings().stored_palette_limit(), 12);
    assert_eq!(restored.settings().toast_duration(), ToastDuration::Short);
}

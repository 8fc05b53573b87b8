use color_picker::clipboard::{copied_message, PendingHide, ToastSchedule};
use color_picker::color::Rgb;
use color_picker::editing::{
    channel_edit, clamp_cursor, cursor_offset, hex_edit, slider_edit, with_channel,
    ChannelEdit, ColorChannel, HexEdit,
};
use color_picker::saved_colors::{favorite_button_look, palette_button_look, palette_grid_cell};
use color_picker::style::theme_colors;

#[test]
fn toast_hides_only_for_the_latest_notice() {
    let mut s = ToastSchedule::new(2000);
    let first = s.show();
    assert_eq!(first, PendingHide { generation: 1, delay_ms: 2000 });
    assert!(s.should_hide(first.generation));
    s.set_duration_ms(3500);
    let second = s.show();
    assert_eq!(second, PendingHide { generation: 2, delay_ms: 3500 });
    assert!(!s.should_hide(first.generation));
    assert!(s.should_hide(second.generation));
}

#[test]
fn copied_message_names_the_text() {
    assert_eq!(copied_message("#32D87A"), "Copied #32D87A");
}

#[test]
fn channel_edits() {
    let c = Rgb::new(1, 2, 3);
    assert_eq!(with_channel(c, ColorChannel::Green, 9), Rgb::new(1, 9, 3));
    assert_eq!(channel_edit(true, c, ColorChannel::Red, "9"), ChannelEdit::Ignored);
    assert_eq!(channel_edit(false, c, ColorChannel::Red, " 9 "), ChannelEdit::Apply(Rgb::new(9, 2, 3)));
    assert_eq!(channel_edit(false, c, ColorChannel::Blue, "300"), ChannelEdit::Invalid);
    assert_eq!(slider_edit(false, c, ColorChannel::Blue, 77), Some(Rgb::new(1, 2, 77)));
    assert_eq!(slider_edit(true, c, ColorChannel::Blue, 77), None);
}

#[test]
fn hex_edits() {
    assert_eq!(hex_edit(true, "#010203"), HexEdit::Ignored);
    assert_eq!(hex_edit(false, "#01020"), HexEdit::Invalid);
    assert_eq!(
        hex_edit(false, " #010203"),
        HexEdit::Apply { color: Rgb::new(1, 2, 3), cursor_offset: 0 }
    );
    assert_eq!(
        hex_edit(false, "010203"),
        HexEdit::Apply { color: Rgb::new(1, 2, 3), cursor_offset: 1 }
    );
    assert_eq!(cursor_offset("  #"), 0);
    assert_eq!(cursor_offset(""), 1);
    assert_eq!(cursor_offset("a#"), 1);
}

#[test]
fn cursor_is_kept_inside_the_text() {
    assert_eq!(clamp_cursor(-3, 7), 0);
    assert_eq!(clamp_cursor(4, 7), 4);
    assert_eq!(clamp_cursor(9, 7), 7);
    assert_eq!(clamp_cursor(0, 0), 0);
}

#[test]
fn button_looks() {
    let fav = favorite_button_look(true);
    assert_eq!((fav.tooltip, fav.icon, fav.active), ("Remove favorite", Some("starred-symbolic"), true));
    let not_fav = favorite_button_look(false);
    assert_eq!(
        (not_fav.tooltip, not_fav.icon, not_fav.active),
        ("Add favorite", Some("non-starred-symbolic"), false)
    );
    let in_palette = palette_button_look(true);
    assert_eq!((in_palette.tooltip, in_palette.icon, in_palette.active), ("Already in palette", None, true));
    let not_in = palette_button_look(false);
    assert_eq!((not_in.tooltip, not_in.icon, not_in.active), ("Add to palette", None, false));
}

#[test]
fn palette_grid_layout() {
    assert_eq!(palette_grid_cell(0), (0, 0));
    assert_eq!(palette_grid_cell(11), (11, 0));
    assert_eq!(palette_grid_cell(12), (0, 1));
    assert_eq!(palette_grid_cell(35), (11, 2));
}

#[test]
fn theme_colors_follow_the_background() {
    let light = theme_colors(true);
    assert_eq!((light.text, light.panel, light.border), ("#111111", "rgba(255,255,255,0.42)", "rgba(0,0,0,0.18)"));
    let dark = theme_colors(false);
    assert_eq!((dark.text, dark.panel, dark.border), ("#F5F5F5", "rgba(0,0,0,0.28)", "rgba(255,255,255,0.20)"));
}

#[test]
fn written_fields_read_back_as_the_shown_color() {
    for c in [Rgb::new(50, 216, 122), Rgb::new(0, 0, 0), Rgb::new(255, 7, 128)] {
        assert_eq!(hex_edit(false, &c.hex()), HexEdit::Apply { color: c, cursor_offset: 0 });
        assert_eq!(
            channel_edit(false, c, ColorChannel::Red, &color_picker::color::channel_text(c.r)),
            ChannelEdit::Apply(c)
        );
        assert_eq!(
            channel_edit(false, c, ColorChannel::Green, &color_picker::color::channel_text(c.g)),
            ChannelEdit::Apply(c)
        );
        assert_eq!(
            channel_edit(false, c, ColorChannel::Blue, &color_picker::color::channel_text(c.b)),
            ChannelEdit::Apply(c)
        );
    }
}

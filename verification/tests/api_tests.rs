use simple_game::color::Color;
use simple_game::font::{DefaultFont, Font, StyledCharacter, StyledText};
use simple_game::screen::Screen;
use simple_game::{RefreshRate, WindowDimensions};

#[test]
fn color_new_sets_all_channels() {
    let c = Color::new(10, 20, 30, 40);
    assert_eq!(c.red, 10);
    assert_eq!(c.green, 20);
    assert_eq!(c.blue, 30);
    assert_eq!(c.alpha, 40);
}

#[test]
fn white_is_opaque_white() {
    assert_eq!(Color::white(), Color::new(255, 255, 255, 255));
}

#[test]
fn default_styling_is_default_font_and_white() {
    let s: StyledText<DefaultFont> = StyledText::default_styling("hello");
    assert_eq!(s.text, "hello");
    assert_eq!(s.color, Color::new(255, 255, 255, 255));
    assert_eq!(s.font, DefaultFont::SpaceMono400(40));
}

#[test]
fn default_font_reports_its_size() {
    let f = DefaultFont::SpaceMono400(32);
    assert_eq!(f.size(), 32);
    assert_eq!(f.font_id(), 0);
}

#[test]
fn styled_characters_compare_by_value() {
    let a = StyledCharacter { character: 'x', font: DefaultFont::SpaceMono400(16) };
    let b = StyledCharacter { character: 'x', font: DefaultFont::SpaceMono400(16) };
    let c = StyledCharacter { character: 'y', font: DefaultFont::SpaceMono400(16) };
    assert_eq!(a, b);
    assert_ne!(a, c);
}

#[test]
fn screen_records_text_draws() {
    let mut screen = Screen::new();
    let mut recorder = screen.begin();
    assert_eq!(recorder.text_count(), 0);
    recorder.draw_text("one");
    recorder.draw_text("two");
    assert_eq!(recorder.text_count(), 2);
}

#[test]
fn window_configuration_enums_construct() {
    let d = WindowDimensions::Windowed(1280, 720);
    assert!(matches!(d, WindowDimensions::Windowed(1280, 720)));
    assert!(matches!(WindowDimensions::FullScreen, WindowDimensions::FullScreen));
    assert_eq!(RefreshRate::Fps(60), RefreshRate::Fps(60));
    assert_ne!(RefreshRate::Monitor, RefreshRate::Fps(144));
}

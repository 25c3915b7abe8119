use command_palette::presence::{PresenceOptions, PresencePhase, PresenceTransition, SpringPreset};
use command_palette::rows::{build_rows, row_index_for_item, CommandPaletteRow};
use command_palette::state::CommandPaletteState;
use command_palette::theme::{theme_elevation_defaults, ThemeMode, ThemeShadowToken};
use command_palette::types::{
    CommandMatcherKind, CommandPaletteConfig, CommandPaletteItem, CommandPaletteMatch, MatchedItem,
};

fn item(id: &str, title: &str) -> CommandPaletteItem {
    CommandPaletteItem::new(id, title)
}

fn open_palette(items: Vec<CommandPaletteItem>) -> CommandPaletteState<CommandMatcherKind> {
    CommandPaletteState::new(CommandPaletteConfig::default(), CommandMatcherKind::Nucleo, items, true, 0)
}

#[test]
fn item_builders_fill_the_fields() {
    let it = item("save", "Save File")
        .subtitle("Writes the buffer")
        .category("File")
        .shortcut("ctrl-s")
        .icon("floppy")
        .keyword("persist")
        .keywords(vec!["write".to_string(), "store".to_string()])
        .disabled(false);
    assert_eq!(it.id, "save");
    assert_eq!(it.title, "Save File");
    assert_eq!(it.subtitle.as_deref(), Some("Writes the buffer"));
    assert_eq!(it.category, "File");
    assert_eq!(it.shortcut.as_deref(), Some("ctrl-s"));
    assert_eq!(it.icon.as_deref(), Some("floppy"));
    assert_eq!(it.keywords, vec!["persist", "write", "store"]);
    assert!(!it.disabled);
    let copy = it.clone();
    assert_eq!(copy.id, it.id);
    assert_eq!(copy.keywords, it.keywords);
    assert_eq!(copy.icon, it.icon);
}

#[test]
fn match_builders_fill_the_fields() {
    let m = CommandPaletteMatch::new(7)
        .with_title_ranges(vec![(0, 2)])
        .with_subtitle_ranges(vec![(1, 3)]);
    assert_eq!(m.score, 7);
    assert_eq!(m.title_ranges, vec![(0, 2)]);
    assert_eq!(m.subtitle_ranges, vec![(1, 3)]);
    let copy = m.clone();
    assert_eq!(copy.score, 7);
    assert_eq!(copy.title_ranges, vec![(0, 2)]);
    let entry = MatchedItem::new(item("a", "one"), m);
    assert_eq!(entry.item.id, "a");
    assert_eq!(entry.match_info.score, 7);
}

#[test]
fn config_defaults() {
    let cfg = CommandPaletteConfig::default();
    assert_eq!(cfg.shortcut.as_deref(), Some("ctrl-p"));
    assert!(matches!(cfg.matcher, CommandMatcherKind::Nucleo));
    assert_eq!(cfg.max_results, 50);
    assert_eq!(cfg.placeholder, "Type a command...");
    assert_eq!(cfg.width, 560);
    assert_eq!(cfg.max_height, 400);
    assert!(cfg.show_footer);
    assert!(cfg.show_categories_inline);
    assert_eq!(cfg.commands_section_title.as_deref(), Some("Commands"));
    assert_eq!(cfg.results_section_title.as_deref(), Some("Search Results"));
}

#[test]
fn empty_query_rows_have_no_headers() {
    let state = open_palette(vec![item("a", "one"), item("b", "two")]);
    let rows = build_rows(&state);
    assert_eq!(rows.len(), 2);
    assert!(matches!(rows[0], CommandPaletteRow::Item(0)));
    assert!(matches!(rows[1], CommandPaletteRow::Item(1)));
    assert_eq!(row_index_for_item(&state, 1), 1);
}

#[test]
fn sections_get_headers_while_querying() {
    let mut state = open_palette(vec![item("s", "alpha static")]);
    let req = state.set_query("alpha".to_string(), 0).expect("scheduled");
    state.apply_async_results(req.generation, vec![item("x", "alpha async")]);
    assert_eq!(state.matched_static_len, 1);
    assert_eq!(state.matched_items.len(), 2);
    let rows = build_rows(&state);
    assert_eq!(rows.len(), 4);
    match &rows[0] {
        CommandPaletteRow::Header(t) => assert_eq!(t, "Commands"),
        _ => panic!("expected the commands header first"),
    }
    assert!(matches!(rows[1], CommandPaletteRow::Item(0)));
    match &rows[2] {
        CommandPaletteRow::Header(t) => assert_eq!(t, "Search Results"),
        _ => panic!("expected the results header"),
    }
    assert!(matches!(rows[3], CommandPaletteRow::Item(1)));
    assert_eq!(row_index_for_item(&state, 0), 1);
    assert_eq!(row_index_for_item(&state, 1), 3);
}

#[test]
fn headers_are_omitted_when_not_configured() {
    let mut cfg = CommandPaletteConfig::default();
    cfg.commands_section_title = None;
    let mut state = CommandPaletteState::new(
        cfg,
        CommandMatcherKind::Nucleo,
        vec![item("s", "alpha static")],
        true,
        0,
    );
    state.set_query("alpha".to_string(), 0);
    let rows = build_rows(&state);
    assert_eq!(rows.len(), 1);
    assert!(matches!(rows[0], CommandPaletteRow::Item(0)));
    assert_eq!(row_index_for_item(&state, 0), 0);
}

#[test]
fn presence_phases() {
    assert!(PresenceTransition { phase: PresencePhase::Entering }.transition_active());
    assert!(PresenceTransition { phase: PresencePhase::Exiting }.transition_active());
    assert!(!PresenceTransition { phase: PresencePhase::Entered }.transition_active());
    assert!(PresenceTransition { phase: PresencePhase::Entered }.should_render());
    assert!(!PresenceTransition { phase: PresencePhase::Exited }.should_render());
    assert!(!PresenceOptions::default().animate_on_mount);
    assert_ne!(SpringPreset::Mild, SpringPreset::Medium);
}

#[test]
fn theme_mode_and_elevation() {
    assert!(ThemeMode::Dark.is_dark());
    assert!(!ThemeMode::Light.is_dark());
    assert_eq!(ThemeMode::Light.name(), "light");
    assert_eq!(ThemeMode::Dark.name(), "dark");
    let e = theme_elevation_defaults();
    assert_eq!(e.control_level, 2);
    assert_eq!(e.flyout_level, 32);
    assert_eq!(e.dialog_level, 128);
    assert_eq!(e.surface_panel_shadow, ThemeShadowToken::Lg);
}

use command_palette::state::{CommandPaletteEvent, CommandPaletteState};
use command_palette::types::{CommandMatcherKind, CommandPaletteConfig, CommandPaletteItem};

fn item(id: &str, title: &str) -> CommandPaletteItem {
    CommandPaletteItem::new(id, title)
}

fn open_palette(items: Vec<CommandPaletteItem>) -> CommandPaletteState<CommandMatcherKind> {
    CommandPaletteState::new(CommandPaletteConfig::default(), CommandMatcherKind::Nucleo, items, true, 0)
}

fn titles(state: &CommandPaletteState<CommandMatcherKind>) -> Vec<String> {
    state.matched_items.iter().map(|m| m.item.title.clone()).collect()
}

#[test]
fn initial_state_lists_all_static_items() {
    let state = open_palette(vec![item("a", "Open File"), item("b", "Close Window")]);
    assert_eq!(state.matched_items.len(), 2);
    assert_eq!(state.matched_static_len, 2);
    assert_eq!(state.selected_index, Some(0));
    assert_eq!(state.query, "");
    for m in &state.matched_items {
        assert_eq!(m.match_info.score, 0);
        assert!(m.match_info.title_ranges.is_empty());
    }
}

#[test]
fn initial_state_empty_set_has_no_selection() {
    let state = open_palette(Vec::new());
    assert!(state.matched_items.is_empty());
    assert_eq!(state.selected_index, None);
}

#[test]
fn tie_break_is_by_ascending_title() {
    let mut state = open_palette(vec![item("b", "Open Folder"), item("a", "Open File")]);
    let r = state.set_query("open".to_string(), 0);
    assert!(r.is_some());
    assert_eq!(titles(&state), vec!["Open File".to_string(), "Open Folder".to_string()]);
}

#[test]
fn scores_order_the_results() {
    let mut state = open_palette(vec![
        item("a", "zzz").subtitle("grep"),
        item("b", "grep"),
    ]);
    state.set_query("grep".to_string(), 0);
    // The title match (boost 1000) outranks the subtitle match (boost 500).
    assert_eq!(titles(&state), vec!["grep".to_string(), "zzz".to_string()]);
    assert!(
        state.matched_items[0].match_info.score > state.matched_items[1].match_info.score
    );
}

#[test]
fn single_character_query_yields_no_matches() {
    let mut state = open_palette(vec![item("a", "Open File"), item("b", "ax")]);
    let r = state.set_query("a".to_string(), 0);
    assert!(r.is_none());
    assert!(state.matched_items.is_empty());
    assert_eq!(state.selected_index, None);
}

#[test]
fn short_query_schedules_no_async_query() {
    let mut state = open_palette(vec![item("a", "Open File")]);
    assert!(state.set_query("a".to_string(), 0).is_none());
    assert!(state.set_query("".to_string(), 0).is_none());
}

#[test]
fn unchanged_query_is_a_no_op() {
    let mut state = open_palette(vec![item("a", "Open File")]);
    let r1 = state.set_query("open".to_string(), 0);
    assert!(r1.is_some());
    let gen_before = state.query_generation;
    let r2 = state.set_query("open".to_string(), 5);
    assert!(r2.is_none());
    assert_eq!(state.query_generation, gen_before);
}

#[test]
fn async_request_carries_the_new_generation() {
    let mut state = open_palette(vec![item("a", "Open File")]);
    let req = state.set_query("open".to_string(), 0).expect("long enough query");
    assert_eq!(req.generation, state.query_generation);
    assert_eq!(req.delay_ms, 0);
}

#[test]
fn reveal_delay_counts_down_from_the_deadline() {
    let items = vec![item("a", "Open File")];
    // Session opens at 1000ms without reduced motion: deadline is 1280ms.
    let mut state = CommandPaletteState::new(
        CommandPaletteConfig::default(),
        CommandMatcherKind::Nucleo,
        items,
        false,
        1000,
    );
    let req = state.set_query("open".to_string(), 1100).expect("scheduled");
    assert_eq!(req.delay_ms, 180);
    let req2 = state.set_query("opened".to_string(), 5000).expect("scheduled");
    assert_eq!(req2.delay_ms, 0);
}

#[test]
fn static_results_never_starved_under_truncation() {
    let mut cfg = CommandPaletteConfig::default();
    cfg.max_results = 1;
    let mut state = CommandPaletteState::new(
        cfg,
        CommandMatcherKind::Nucleo,
        vec![item("s", "alpha static")],
        true,
        0,
    );
    let req = state.set_query("alpha".to_string(), 0).expect("scheduled");
    state.apply_async_results(req.generation, vec![item("x", "alpha async")]);
    assert_eq!(state.matched_items.len(), 1);
    assert_eq!(state.matched_static_len, 1);
    assert_eq!(state.matched_items[0].item.id, "s");
}

#[test]
fn stale_async_results_are_discarded() {
    let mut state = open_palette(vec![item("s", "alpha static")]);
    let first = state.set_query("alpha".to_string(), 0).expect("scheduled");
    let second = state.set_query("beta".to_string(), 0).expect("scheduled");
    assert_ne!(first.generation, second.generation);

    // The older query's completion arrives after the newer query was issued.
    state.apply_async_results(first.generation, vec![item("x", "alpha async")]);
    assert!(!state.matched_items.iter().any(|m| m.item.id == "x"));

    // A completion for the current generation applies.
    state.apply_async_results(second.generation, vec![item("y", "beta async")]);
    assert!(state.matched_items.iter().any(|m| m.item.id == "y"));
}

#[test]
fn async_item_with_static_id_supersedes_the_static_item() {
    let mut state = open_palette(vec![item("s", "alpha static")]);
    let req = state.set_query("alpha".to_string(), 0).expect("scheduled");
    state.apply_async_results(
        req.generation,
        vec![item("s", "alpha refreshed"), item("n", "alpha new")],
    );
    assert_eq!(state.matched_static_len, 1);
    assert_eq!(state.matched_items.len(), 2);
    assert_eq!(state.matched_items[0].item.title, "alpha refreshed");
    assert_eq!(state.matched_items[1].item.id, "n");
}

#[test]
fn duplicate_async_ids_keep_the_last_item() {
    let mut state = open_palette(vec![item("s", "alpha static")]);
    let req = state.set_query("alpha".to_string(), 0).expect("scheduled");
    state.apply_async_results(
        req.generation,
        vec![item("n", "alpha first"), item("n", "alpha second")],
    );
    let found: Vec<&str> = state
        .matched_items
        .iter()
        .filter(|m| m.item.id == "n")
        .map(|m| m.item.title.as_str())
        .collect();
    assert_eq!(found, vec!["alpha second"]);
}

#[test]
fn query_change_clears_async_results() {
    let mut state = open_palette(vec![item("s", "alpha static")]);
    let req = state.set_query("alpha".to_string(), 0).expect("scheduled");
    state.apply_async_results(req.generation, vec![item("x", "alpha async")]);
    assert!(state.matched_items.iter().any(|m| m.item.id == "x"));
    state.set_query("alp".to_string(), 0);
    assert!(!state.matched_items.iter().any(|m| m.item.id == "x"));
}

#[test]
fn selection_wraps_forward_and_backward() {
    let mut state = open_palette(vec![
        item("a", "one"),
        item("b", "two"),
        item("c", "three"),
    ]);
    let n = state.matched_items.len();
    assert_eq!(state.selected_index, Some(0));
    for _ in 0..n {
        state.select_next();
    }
    assert_eq!(state.selected_index, Some(0));
    state.select_prev();
    assert_eq!(state.selected_index, Some(n - 1));
}

#[test]
fn selection_moves_on_empty_list_are_no_ops() {
    let mut state = open_palette(Vec::new());
    state.select_next();
    assert_eq!(state.selected_index, None);
    state.select_prev();
    assert_eq!(state.selected_index, None);
}

#[test]
fn select_index_out_of_bounds_is_ignored() {
    let mut state = open_palette(vec![item("a", "one"), item("b", "two")]);
    state.select_index(1);
    assert_eq!(state.selected_index, Some(1));
    state.select_index(2);
    assert_eq!(state.selected_index, Some(1));
}

#[test]
fn confirm_emits_the_selected_item() {
    let mut state = open_palette(vec![item("a", "one"), item("b", "two")]);
    state.select_index(1);
    match state.confirm() {
        Some(CommandPaletteEvent::Selected { item }) => assert_eq!(item.id, "b"),
        _ => panic!("expected a selection event"),
    }
}

#[test]
fn disabled_item_cannot_confirm() {
    let mut state = open_palette(vec![item("a", "one"), item("b", "two").disabled(true)]);
    state.select_index(1);
    assert!(state.confirm().is_none());
    assert!(state.selected_item().is_some());
}

#[test]
fn confirm_without_selection_is_none() {
    let state = open_palette(Vec::new());
    assert!(state.confirm().is_none());
    assert!(state.selected_item().is_none());
}

#[test]
fn dismiss_always_emits() {
    let state = open_palette(Vec::new());
    assert!(matches!(state.dismiss(), CommandPaletteEvent::Dismissed));
}

#[test]
fn skim_backend_drives_the_same_state_machine() {
    let mut state = CommandPaletteState::new(
        CommandPaletteConfig::default(),
        CommandMatcherKind::FuzzyMatcher,
        vec![item("b", "Open Folder"), item("a", "Open File")],
        true,
        0,
    );
    state.set_query("open".to_string(), 0);
    assert_eq!(titles(&state), vec!["Open File".to_string(), "Open Folder".to_string()]);
    state.set_query("x".to_string(), 0);
    assert!(state.matched_items.is_empty());
    assert_eq!(state.selected_index, None);
}

#[test]
fn selection_wrap_on_single_row() {
    let mut state = open_palette(vec![item("a", "only")]);
    state.select_next();
    assert_eq!(state.selected_index, Some(0));
    state.select_prev();
    assert_eq!(state.selected_index, Some(0));
}

#[test]
fn unicode_query_matches_and_highlights() {
    let mut state = open_palette(vec![item("a", "héllo wörld"), item("b", "plain")]);
    state.set_query("hé".to_string(), 0);
    assert_eq!(state.matched_items.len(), 1);
    let m = &state.matched_items[0];
    assert_eq!(m.item.id, "a");
    assert_eq!(m.match_info.title_ranges, vec![(0, 3)]);
}

#[test]
fn selection_resets_to_first_on_query_change() {
    let mut state = open_palette(vec![
        item("a", "open one"),
        item("b", "open two"),
        item("c", "open three"),
    ]);
    state.select_index(2);
    state.set_query("open".to_string(), 0);
    assert_eq!(state.selected_index, Some(0));
}

use typls::capture::{CaptureState, EventKind, InputEvent, Key};
use typls::engine::plan_expansion;
use typls::settings::{App, AppSettings, Expansion, Group, default_settings};
use typls::template::parse_variables;

fn key_event(c: &str) -> InputEvent {
    InputEvent { kind: EventKind::KeyPress(Key::Other), name: Some(c.to_string()) }
}

fn special(k: Key) -> InputEvent {
    InputEvent { kind: EventKind::KeyPress(k), name: None }
}

fn rule(abbr: &str, text: &str) -> Expansion {
    Expansion {
        id: abbr.to_string(),
        abbr: abbr.to_string(),
        text: text.to_string(),
        group: None,
    }
}

fn cfg_of(expansions: Vec<Expansion>) -> AppSettings {
    let mut s = default_settings();
    s.expansions = expansions;
    s
}

fn feed(state: &mut CaptureState, cfg: &AppSettings, input: &str) {
    for c in input.chars() {
        state.handle_event(&key_event(&c.to_string()), cfg);
    }
}

#[test]
fn default_settings_values() {
    let s = default_settings();
    assert_eq!(s.trigger.string, "'");
    assert_eq!(s.confirm.chars, vec![" ", ".", ";", "!", "?", ":", ","]);
    assert!(s.confirm.key_enter);
    assert!(s.confirm.key_right_arrow);
    assert!(s.confirm.append);
    assert!(!s.confirm.auto);
    assert_eq!(s.variables.separator, "|");
    assert_eq!(s.expansions.len(), 1);
    assert_eq!(s.expansions[0].abbr, "typls");
    assert_eq!(s.expansions[0].text, "Type less with typls: https://typls.app");
    assert!(s.expansions[0].group.is_none());
    assert_eq!(s.groups.as_ref().map(|g| g.len()), Some(0));
    assert!(s.active_group.is_none());
}

#[test]
fn escape_cancels_capture() {
    let cfg = cfg_of(vec![rule("hi", "hello")]);
    let mut state = CaptureState::new();
    feed(&mut state, &cfg, "'hi");
    assert!(state.is_capturing);
    let sig = state.handle_event(&special(Key::Escape), &cfg);
    assert!(sig.is_none());
    assert!(!state.is_capturing);
    assert!(state.sequence.is_empty());
}

#[test]
fn backspace_pops_and_closes() {
    let cfg = cfg_of(vec![rule("hi", "hello")]);
    let mut state = CaptureState::new();
    feed(&mut state, &cfg, "'hi");
    state.handle_event(&special(Key::Backspace), &cfg);
    assert_eq!(state.sequence, vec!['h']);
    state.handle_event(&special(Key::Backspace), &cfg);
    assert!(state.sequence.is_empty());
    assert!(state.is_capturing);
    state.handle_event(&special(Key::Backspace), &cfg);
    assert!(!state.is_capturing);
}

#[test]
fn no_capture_without_trigger() {
    let cfg = cfg_of(vec![rule("hi", "hello")]);
    let mut state = CaptureState::new();
    feed(&mut state, &cfg, "hi there ");
    assert!(!state.is_capturing);
    assert!(state.sequence.is_empty());
}

#[test]
fn empty_trigger_disables_machine() {
    let mut cfg = cfg_of(vec![rule("hi", "hello")]);
    cfg.trigger.string = String::new();
    let mut state = CaptureState::new();
    feed(&mut state, &cfg, "'hi ");
    assert!(!state.is_capturing);
    assert!(state.sequence.is_empty());
}

#[test]
fn nameless_events_are_ignored() {
    let cfg = cfg_of(vec![rule("hi", "hello")]);
    let mut state = CaptureState::new();
    feed(&mut state, &cfg, "'hi");
    let other = InputEvent { kind: EventKind::KeyPress(Key::Other), name: None };
    assert!(state.handle_event(&other, &cfg).is_none());
    let released = InputEvent { kind: EventKind::KeyRelease(Key::Return), name: None };
    assert!(state.handle_event(&released, &cfg).is_none());
    assert_eq!(state.sequence, vec!['h', 'i']);
    assert!(state.is_capturing);
}

#[test]
fn confirm_without_append_echoes_nothing() {
    let mut cfg = cfg_of(vec![rule("hi", "hello")]);
    cfg.confirm.append = false;
    let mut state = CaptureState::new();
    feed(&mut state, &cfg, "'hi");
    let sig = state.handle_event(&key_event(" "), &cfg).unwrap();
    assert_eq!(sig.append, "");
    let plan = plan_expansion(&sig, &cfg, "linux", "/usr/bin/app").unwrap();
    assert_eq!(plan.backspace_count, 3);
    assert_eq!(plan.insert, "hello");
}

#[test]
fn auto_confirm_needs_unique_prefix() {
    let mut cfg = cfg_of(vec![rule("ok", "fine"), rule("okay", "also fine")]);
    cfg.confirm.auto = true;
    let mut state = CaptureState::new();
    feed(&mut state, &cfg, "'ok");
    // "ok" matches, but two abbreviations start with "ok".
    assert!(state.is_capturing);
    assert_eq!(state.sequence, vec!['o', 'k']);
}

#[test]
fn auto_confirm_skips_parameterized_template() {
    let mut cfg = cfg_of(vec![rule("sig", "Yours, {}")]);
    cfg.confirm.auto = true;
    let mut state = CaptureState::new();
    feed(&mut state, &cfg, "'sig");
    assert!(state.is_capturing);
    assert_eq!(state.sequence, vec!['s', 'i', 'g']);
}

#[test]
fn auto_confirm_fires_on_braces_with_space() {
    // "{ }" is not a loose placeholder: the space interrupts it.
    let mut cfg = cfg_of(vec![rule("br", "a { } b")]);
    cfg.confirm.auto = true;
    let mut state = CaptureState::new();
    feed(&mut state, &cfg, "'br");
    assert!(!state.is_capturing);
}

#[test]
fn active_group_prefers_bound_candidate() {
    let mut bound = rule("hi", "hola");
    bound.group = Some("g1".to_string());
    let mut other = rule("hi", "salut");
    other.group = Some("g2".to_string());
    let mut cfg = cfg_of(vec![other, bound, rule("hi", "hello")]);
    cfg.active_group = Some("g1".to_string());
    let mut state = CaptureState::new();
    feed(&mut state, &cfg, "'hi");
    let sig = state.handle_event(&key_event(" "), &cfg).unwrap();
    let plan = plan_expansion(&sig, &cfg, "linux", "/usr/bin/app").unwrap();
    assert_eq!(plan.insert, "hola ");
}

#[test]
fn active_group_falls_back_to_ungrouped() {
    let mut bound = rule("hi", "hola");
    bound.group = Some("g2".to_string());
    let mut cfg = cfg_of(vec![bound, rule("hi", "hello")]);
    cfg.active_group = Some("g1".to_string());
    let mut state = CaptureState::new();
    feed(&mut state, &cfg, "'hi");
    let sig = state.handle_event(&key_event(" "), &cfg).unwrap();
    let plan = plan_expansion(&sig, &cfg, "linux", "/usr/bin/app").unwrap();
    assert_eq!(plan.insert, "hello ");
}

#[test]
fn grouped_candidate_with_missing_group_is_skipped() {
    let mut bound = rule("hi", "hola");
    bound.group = Some("gone".to_string());
    let cfg = cfg_of(vec![bound, rule("hi", "hello")]);
    let mut state = CaptureState::new();
    feed(&mut state, &cfg, "'hi");
    let sig = state.handle_event(&key_event(" "), &cfg).unwrap();
    let plan = plan_expansion(&sig, &cfg, "linux", "/usr/bin/app").unwrap();
    assert_eq!(plan.insert, "hello ");
}

#[test]
fn group_requires_matching_platform() {
    let mut bound = rule("hi", "hola");
    bound.group = Some("g1".to_string());
    let mut cfg = cfg_of(vec![bound, rule("hi", "hello")]);
    cfg.groups = Some(vec![Group {
        id: "g1".to_string(),
        name: "editors".to_string(),
        apps: vec![App { path: "/usr/bin/app".to_string(), os: "macos".to_string() }],
    }]);
    let mut state = CaptureState::new();
    feed(&mut state, &cfg, "'hi");
    let sig = state.handle_event(&key_event(" "), &cfg).unwrap();
    let plan = plan_expansion(&sig, &cfg, "linux", "/usr/bin/app").unwrap();
    assert_eq!(plan.insert, "hello ");
}

#[test]
fn parse_variables_positional_and_named() {
    let e = rule("x", "{} and {=fall} and {name} and {host=example.com}");
    let vars = parse_variables(&e);
    assert_eq!(vars.unnamed.len(), 2);
    assert_eq!(vars.unnamed[0].name, "");
    assert_eq!(vars.unnamed[0].default, "");
    assert_eq!(vars.unnamed[1].default, "fall");
    assert_eq!(vars.named.len(), 2);
    assert_eq!(vars.named[0].name, "name");
    assert_eq!(vars.named[0].default, "");
    assert_eq!(vars.named[1].name, "host");
    assert_eq!(vars.named[1].default, "example.com");
}

#[test]
fn parse_variables_duplicate_names_collapse() {
    let e = rule("x", "{a=1} {a=2} {b}");
    let vars = parse_variables(&e);
    assert_eq!(vars.named.len(), 2);
    assert_eq!(vars.named[0].name, "a");
    // The later default wins.
    assert_eq!(vars.named[0].default, "2");
    assert_eq!(vars.named[1].name, "b");
}

#[test]
fn parse_variables_whitespace_abandons_placeholder() {
    let e = rule("x", "literal {a b} text {c}");
    let vars = parse_variables(&e);
    assert_eq!(vars.unnamed.len(), 0);
    assert_eq!(vars.named.len(), 1);
    assert_eq!(vars.named[0].name, "c");
}

#[test]
fn positional_fill_is_left_to_right() {
    let cfg = cfg_of(vec![rule("p", "{}+{}")]);
    let mut state = CaptureState::new();
    feed(&mut state, &cfg, "'p|one|two");
    let sig = state.handle_event(&key_event(" "), &cfg).unwrap();
    let plan = plan_expansion(&sig, &cfg, "linux", "/usr/bin/app").unwrap();
    assert_eq!(plan.insert, "one+two ");
}

#[test]
fn missing_positional_argument_uses_default() {
    let cfg = cfg_of(vec![rule("p", "{}-{=second}")]);
    let mut state = CaptureState::new();
    feed(&mut state, &cfg, "'p|one");
    let sig = state.handle_event(&key_event(" "), &cfg).unwrap();
    let plan = plan_expansion(&sig, &cfg, "linux", "/usr/bin/app").unwrap();
    assert_eq!(plan.insert, "one-second ");
}

#[test]
fn named_variable_replaces_every_occurrence() {
    let cfg = cfg_of(vec![rule("n", "{w} {w}!")]);
    let mut state = CaptureState::new();
    feed(&mut state, &cfg, "'n|w=hey");
    let sig = state.handle_event(&key_event(" "), &cfg).unwrap();
    let plan = plan_expansion(&sig, &cfg, "linux", "/usr/bin/app").unwrap();
    assert_eq!(plan.insert, "hey hey! ");
}

#[test]
fn deletion_counts_characters_not_bytes() {
    let cfg = cfg_of(vec![rule("é", "ü")]);
    let mut state = CaptureState::new();
    feed(&mut state, &cfg, "'é");
    let sig = state.handle_event(&key_event(" "), &cfg).unwrap();
    assert_eq!(sig.sequence, "é");
    let plan = plan_expansion(&sig, &cfg, "linux", "/usr/bin/app").unwrap();
    // One captured character, one echoed space, one trigger.
    assert_eq!(plan.backspace_count, 3);
    assert_eq!(plan.insert, "ü ");
}

#[test]
fn trigger_inside_capture_is_a_plain_character() {
    let cfg = cfg_of(vec![rule("a'b", "quoted")]);
    let mut state = CaptureState::new();
    feed(&mut state, &cfg, "'a'b");
    let sig = state.handle_event(&key_event(" "), &cfg).unwrap();
    assert_eq!(sig.sequence, "a'b");
    let plan = plan_expansion(&sig, &cfg, "linux", "/usr/bin/app").unwrap();
    assert_eq!(plan.insert, "quoted ");
}

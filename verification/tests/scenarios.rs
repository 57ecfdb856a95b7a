use typls::capture::{CaptureSignal, CaptureState, EventKind, InputEvent, Key};
use typls::engine::plan_expansion;
use typls::settings::{App, AppSettings, Expansion, Group, default_settings};

fn ch(c: &str) -> InputEvent {
    InputEvent { kind: EventKind::KeyPress(Key::Other), name: Some(c.to_string()) }
}

fn press(k: Key) -> InputEvent {
    InputEvent { kind: EventKind::KeyPress(k), name: None }
}

fn expansion(abbr: &str, text: &str) -> Expansion {
    Expansion {
        id: abbr.to_string(),
        abbr: abbr.to_string(),
        text: text.to_string(),
        group: None,
    }
}

fn settings_with(expansions: Vec<Expansion>) -> AppSettings {
    let mut s = default_settings();
    s.expansions = expansions;
    s
}

fn type_all(state: &mut CaptureState, cfg: &AppSettings, input: &str) -> Vec<CaptureSignal> {
    let mut signals = Vec::new();
    for c in input.chars() {
        if let Some(sig) = state.handle_event(&ch(&c.to_string()), cfg) {
            signals.push(sig);
        }
    }
    signals
}

#[test]
fn simple_confirm_char_expansion() {
    let cfg = settings_with(vec![expansion("hi", "hello")]);
    let mut state = CaptureState::new();
    let mut signals = type_all(&mut state, &cfg, "'hi ");
    assert_eq!(signals.len(), 1);
    let sig = signals.remove(0);
    assert_eq!(sig.sequence, "hi");
    assert_eq!(sig.append, " ");
    assert!(!sig.append_enter);
    let plan = plan_expansion(&sig, &cfg, "linux", "/usr/bin/app").unwrap();
    assert_eq!(plan.backspace_count, 4);
    assert_eq!(plan.insert, "hello ");
    assert!(!plan.press_enter);
}

#[test]
fn right_arrow_confirm() {
    let cfg = settings_with(vec![expansion("hi", "hello")]);
    let mut state = CaptureState::new();
    assert!(type_all(&mut state, &cfg, "'hi").is_empty());
    let sig = state.handle_event(&press(Key::RightArrow), &cfg).unwrap();
    assert_eq!(sig.sequence, "hi");
    assert_eq!(sig.append, "");
    assert!(!sig.append_enter);
    let plan = plan_expansion(&sig, &cfg, "linux", "/usr/bin/app").unwrap();
    assert_eq!(plan.backspace_count, 3);
    assert_eq!(plan.insert, "hello");
    assert!(!plan.press_enter);
}

#[test]
fn positional_argument() {
    let cfg = settings_with(vec![expansion("sig", "Yours, {}")]);
    let mut state = CaptureState::new();
    let mut signals = type_all(&mut state, &cfg, "'sig|Ada ");
    assert_eq!(signals.len(), 1);
    let sig = signals.remove(0);
    assert_eq!(sig.sequence, "sig|Ada");
    let plan = plan_expansion(&sig, &cfg, "linux", "/usr/bin/app").unwrap();
    assert_eq!(plan.backspace_count, 9);
    assert_eq!(plan.insert, "Yours, Ada ");
}

#[test]
fn named_argument_and_default() {
    let cfg = settings_with(vec![expansion("url", "https://{host=example.com}/{path}")]);
    let mut state = CaptureState::new();
    let mut signals = type_all(&mut state, &cfg, "'url|path=x ");
    assert_eq!(signals.len(), 1);
    let sig = signals.remove(0);
    assert_eq!(sig.sequence, "url|path=x");
    let plan = plan_expansion(&sig, &cfg, "linux", "/usr/bin/app").unwrap();
    assert_eq!(plan.insert, "https://example.com/x ");
    // sequence (10) + echoed space (1) + trigger (1)
    assert_eq!(plan.backspace_count, 12);
}

#[test]
fn auto_confirm_unique_prefix() {
    let mut cfg = settings_with(vec![expansion("okay", "ok")]);
    cfg.confirm.auto = true;
    let mut state = CaptureState::new();
    let mut signals = type_all(&mut state, &cfg, "'okay");
    assert_eq!(signals.len(), 1);
    let sig = signals.remove(0);
    assert_eq!(sig.sequence, "okay");
    assert_eq!(sig.append, "");
    let plan = plan_expansion(&sig, &cfg, "linux", "/usr/bin/app").unwrap();
    assert_eq!(plan.backspace_count, 5);
    assert_eq!(plan.insert, "ok");
}

#[test]
fn grouped_expansion_preferred_when_app_matches() {
    let mut grouped = expansion("hi", "hola");
    grouped.group = Some("g1".to_string());
    let mut cfg = settings_with(vec![grouped, expansion("hi", "hello")]);
    cfg.groups = Some(vec![Group {
        id: "g1".to_string(),
        name: "editors".to_string(),
        apps: vec![App { path: "/usr/bin/app".to_string(), os: "linux".to_string() }],
    }]);
    let mut state = CaptureState::new();
    let mut signals = type_all(&mut state, &cfg, "'hi ");
    assert_eq!(signals.len(), 1);
    let sig = signals.remove(0);
    let plan = plan_expansion(&sig, &cfg, "linux", "/usr/bin/app").unwrap();
    assert_eq!(plan.backspace_count, 4);
    assert_eq!(plan.insert, "hola ");
}

#[test]
fn ungrouped_expansion_when_app_differs() {
    let mut grouped = expansion("hi", "hola");
    grouped.group = Some("g1".to_string());
    let mut cfg = settings_with(vec![grouped, expansion("hi", "hello")]);
    cfg.groups = Some(vec![Group {
        id: "g1".to_string(),
        name: "editors".to_string(),
        apps: vec![App { path: "/usr/bin/other".to_string(), os: "linux".to_string() }],
    }]);
    let mut state = CaptureState::new();
    let mut signals = type_all(&mut state, &cfg, "'hi ");
    let sig = signals.remove(0);
    let plan = plan_expansion(&sig, &cfg, "linux", "/usr/bin/app").unwrap();
    assert_eq!(plan.insert, "hello ");
}

#[test]
fn disabled_enter_keeps_buffer() {
    let mut cfg = settings_with(vec![expansion("hi", "hello")]);
    cfg.confirm.key_enter = false;
    let mut state = CaptureState::new();
    assert!(type_all(&mut state, &cfg, "'hi").is_empty());
    let sig = state.handle_event(&press(Key::Return), &cfg);
    assert!(sig.is_none());
    assert!(state.is_capturing);
    assert_eq!(state.sequence, vec!['h', 'i']);
}

#[test]
fn enter_confirm_appends_enter() {
    let cfg = settings_with(vec![expansion("hi", "hello")]);
    let mut state = CaptureState::new();
    type_all(&mut state, &cfg, "'hi");
    let sig = state.handle_event(&press(Key::Return), &cfg).unwrap();
    assert!(sig.append_enter);
    let plan = plan_expansion(&sig, &cfg, "linux", "/usr/bin/app").unwrap();
    // sequence (2) + trigger (1) + enter (1)
    assert_eq!(plan.backspace_count, 4);
    assert_eq!(plan.insert, "hello");
    assert!(plan.press_enter);
}

#[test]
fn settle_delay_on_linux_and_windows() {
    let cfg = settings_with(vec![expansion("hi", "hello")]);
    let mut state = CaptureState::new();
    let sig = type_all(&mut state, &cfg, "'hi ").remove(0);
    let linux_plan = plan_expansion(&sig, &cfg, "linux", "/usr/bin/app").unwrap();
    // 4 deletions: 5 ms each is below the 50 ms floor
    assert_eq!(linux_plan.settle_millis, 50);
    let windows_plan = plan_expansion(&sig, &cfg, "windows", "C:\\app.exe").unwrap();
    assert_eq!(windows_plan.settle_millis, 0);
}

#[test]
fn settle_delay_scales_with_count() {
    let cfg = settings_with(vec![expansion("abcdefghijkl", "x")]);
    let mut state = CaptureState::new();
    let sig = type_all(&mut state, &cfg, "'abcdefghijkl ").remove(0);
    let plan = plan_expansion(&sig, &cfg, "linux", "/usr/bin/app").unwrap();
    // 12 + 1 + 1 = 14 deletions, 5 ms each
    assert_eq!(plan.backspace_count, 14);
    assert_eq!(plan.settle_millis, 70);
}

#[test]
fn unknown_abbreviation_produces_nothing() {
    let cfg = settings_with(vec![expansion("hi", "hello")]);
    let mut state = CaptureState::new();
    let sig = type_all(&mut state, &cfg, "'nope ").remove(0);
    assert!(plan_expansion(&sig, &cfg, "linux", "/usr/bin/app").is_none());
}

#[test]
fn empty_separator_produces_nothing() {
    let mut cfg = settings_with(vec![expansion("hi", "hello")]);
    cfg.variables.separator = String::new();
    let sig = CaptureSignal {
        sequence: "hi".to_string(),
        append: " ".to_string(),
        append_enter: false,
    };
    assert!(plan_expansion(&sig, &cfg, "linux", "/usr/bin/app").is_none());
}

use seppun_kb::config::{key_names, plain_into_bind, Config};
use seppun_kb::daemon::{next_step, ControlFlags, Daemon, InputEvent, Launch, LoopStep, Response};
use seppun_kb::grab::{plan_grabs, GrabRequest, GrabSet, KeyboardMapping};

const KEY_T: u32 = 0x74;
const KEY_UPPER_T: u32 = 0x54;
const KEY_SPACE: u32 = 0x20;
const KEY_A: u32 = 0x61;

fn resolve(name: &str) -> u32 {
    match name {
        "t" => KEY_T,
        "a" => KEY_A,
        "space" => KEY_SPACE,
        _ => 0,
    }
}

fn table(lines: &[&str]) -> Config {
    let v: Vec<String> = lines.iter().map(|s| s.to_string()).collect();
    let keysyms: Vec<Vec<u32>> = v.iter().map(|l| key_names(l).iter().map(|n| resolve(n)).collect()).collect();
    Config::load_plain(&v, &keysyms)
}

fn mapping() -> KeyboardMapping {
    KeyboardMapping { min_keycode: 8, syms: vec![vec![KEY_A], vec![KEY_T, KEY_UPPER_T], vec![], vec![KEY_T], vec![KEY_SPACE]] }
}

fn spawned(l: &Launch) -> Option<Vec<String>> {
    match l {
        Launch::Spawn(v) => Some(v.clone()),
        Launch::NoCommand => None,
    }
}

#[test]
fn grabs_follow_symbol_names() {
    let c = table(&["Super+Shift+t=xterm", "ctrl+space=", "ctrl+nosuchkeyname=ls"]);
    let reqs = plan_grabs(&c, &mapping());
    assert_eq!(
        reqs,
        vec![
            GrabRequest { keycode: 9, mods: 65 },
            GrabRequest { keycode: 11, mods: 65 },
            GrabRequest { keycode: 12, mods: 4 },
        ]
    );
}

#[test]
fn install_then_uninstall_leaves_nothing() {
    let c = table(&["Super+Shift+t=xterm", "ctrl+space=", "alt+a=x"]);
    let reqs = plan_grabs(&c, &mapping());
    assert!(!reqs.is_empty());
    let mut g = GrabSet::new();
    g.install(&reqs);
    assert!(!g.is_empty());
    assert!(g.contains(GrabRequest { keycode: 8, mods: 8 }));
    g.uninstall(&reqs);
    assert!(g.is_empty());
    g.uninstall(&reqs);
    assert!(g.is_empty());
}

#[test]
fn daemon_grab_and_terminate() {
    let mut d = Daemon::new(table(&["Super+Shift+t=xterm"]), mapping(), 3);
    assert!(d.holds_no_grab());
    let taken = d.grab_all_binds();
    assert_eq!(taken.len(), 2);
    assert!(!d.holds_no_grab());
    let released = d.terminate();
    assert_eq!(released, taken);
    assert!(d.holds_no_grab());
}

#[test]
fn reload_swaps_table_and_grabs() {
    let mut d = Daemon::new(table(&["Super+Shift+t=xterm"]), mapping(), 3);
    d.grab_all_binds();
    let (released, taken) = d.reload(table(&["alt+a=firefox"]));
    assert_eq!(released.len(), 2);
    assert_eq!(taken, vec![GrabRequest { keycode: 8, mods: 8 }]);
    assert!(d.grabs.contains(GrabRequest { keycode: 8, mods: 8 }));
    assert!(!d.grabs.contains(GrabRequest { keycode: 9, mods: 65 }));
    assert!(d.key_press(65, KEY_T).is_empty());
    assert_eq!(d.key_press(8, KEY_A).len(), 1);
}

#[test]
fn every_matching_binding_fires() {
    let d = Daemon::new(table(&["shift+t=one", "alt+t=two", "shift+t=three x", "shift+a=four"]), mapping(), 3);
    let fired = d.key_press(1, KEY_T);
    let got: Vec<Option<Vec<String>>> = fired.iter().map(spawned).collect();
    assert_eq!(got, vec![Some(vec!["one".to_string()]), Some(vec!["three".to_string(), "x".to_string()])]);
    assert!(d.key_press(0, KEY_T).is_empty());
    assert!(d.key_press(1 + 8, KEY_T).is_empty());
}

#[test]
fn firing_does_not_depend_on_order() {
    let a = Daemon::new(table(&["shift+t=one", "alt+t=two", "shift+t=three"]), mapping(), 3);
    let b = Daemon::new(table(&["shift+t=three", "alt+t=two", "shift+t=one"]), mapping(), 3);
    let mut x: Vec<Option<Vec<String>>> = a.key_press(1, KEY_T).iter().map(spawned).collect();
    let mut y: Vec<Option<Vec<String>>> = b.key_press(1, KEY_T).iter().map(spawned).collect();
    x.sort();
    y.sort();
    assert_eq!(x, y);
}

#[test]
fn empty_command_fires_nothing_to_spawn() {
    let d = Daemon::new(table(&["ctrl+space="]), mapping(), 3);
    let fired = d.key_press(4, KEY_SPACE);
    assert_eq!(fired.len(), 1);
    assert!(matches!(fired[0], Launch::NoCommand));
}

#[test]
fn unbalanced_command_fires_nothing_to_spawn() {
    let d = Daemon::new(table(&["ctrl+space=\"oops"]), mapping(), 3);
    let fired = d.key_press(4, KEY_SPACE);
    assert_eq!(fired.len(), 1);
    assert!(matches!(fired[0], Launch::NoCommand));
}

#[test]
fn terminate_comes_before_reload() {
    let both = ControlFlags { reload_requested: true, terminate_requested: true };
    assert_eq!(next_step(both), LoopStep::Terminate);
    let reload = ControlFlags { reload_requested: true, terminate_requested: false };
    assert_eq!(next_step(reload), LoopStep::Reload);
    let none = ControlFlags { reload_requested: false, terminate_requested: false };
    assert_eq!(next_step(none), LoopStep::WaitForEvent);
}

#[test]
fn events_get_their_responses() {
    let d = Daemon::new(table(&["shift+t=one"]), mapping(), 3);
    assert!(matches!(d.respond(&InputEvent::StateNotify { device_id: 3 }), Response::UpdateState));
    assert!(matches!(d.respond(&InputEvent::StateNotify { device_id: 4 }), Response::Ignore));
    assert!(matches!(d.respond(&InputEvent::MappingNotify), Response::RebuildMapping));
    assert!(matches!(d.respond(&InputEvent::Other), Response::Ignore));
    match d.respond(&InputEvent::KeyPress { state: 1, sym: KEY_T }) {
        Response::Run(v) => assert_eq!(v.len(), 1),
        _ => panic!("a key press runs its launches"),
    }
}

#[test]
fn mapping_change_regrabs() {
    let mut d = Daemon::new(table(&["alt+a=x"]), mapping(), 3);
    d.grab_all_binds();
    let moved = KeyboardMapping { min_keycode: 20, syms: vec![vec![KEY_T], vec![KEY_A]] };
    let (released, taken) = d.replace_mapping(moved);
    assert_eq!(released, vec![GrabRequest { keycode: 8, mods: 8 }]);
    assert_eq!(taken, vec![GrabRequest { keycode: 21, mods: 8 }]);
    assert!(!d.grabs.contains(GrabRequest { keycode: 8, mods: 8 }));
}

#[test]
fn binding_without_key_is_never_grabbed() {
    let b = plain_into_bind("ctrl+nosuchkeyname=ls", &vec![0]).unwrap();
    assert_eq!(b.key, 0);
    let c = Config { binds: vec![b] };
    let zero = KeyboardMapping { min_keycode: 8, syms: vec![vec![0], vec![KEY_A]] };
    assert!(plan_grabs(&c, &zero).is_empty());
}

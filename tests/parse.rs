use seppun_kb::config::{key_names, plain_into_bind, Bind, Config};
use x11rb::protocol::xproto::{KeyButMask, ModMask};

const KEY_T_LOWER: u32 = 0x74;
const KEY_SPACE: u32 = 0x20;
const KEY_A: u32 = 0x61;
const KEY_B: u32 = 0x62;
const KEY_RETURN: u32 = 0xff0d;

fn words(v: &[&str]) -> Vec<String> {
    v.iter().map(|s| s.to_string()).collect()
}

fn parse(line: &str, keysyms: &[u32]) -> Option<Bind> {
    plain_into_bind(line, &keysyms.to_vec())
}

#[test]
fn super_shift_t_parses() {
    let b = parse("Super+Shift+t=xterm", &[KEY_T_LOWER]).expect("a binding");
    assert_eq!(b.key, KEY_T_LOWER);
    assert_eq!(b.mods, 64 + 1);
    assert_eq!(b.keybutmask, 64 + 1);
    assert_eq!(b.cmd, Some(words(&["xterm"])));
}

#[test]
fn empty_command_parses_to_empty_words() {
    let b = parse("ctrl+space=", &[KEY_SPACE]).expect("a binding");
    assert_eq!(b.key, KEY_SPACE);
    assert_eq!(b.mods, 4);
    assert_eq!(b.keybutmask, 4);
    assert_eq!(b.cmd, Some(Vec::<String>::new()));
}

#[test]
fn line_without_equals_is_rejected() {
    assert!(parse("justtext", &[KEY_A]).is_none());
}

#[test]
fn line_with_two_equals_is_rejected() {
    assert!(parse("ctrl+a=echo=1", &[KEY_A]).is_none());
}

#[test]
fn modifier_aliases_share_bits() {
    let a = parse("control+alt+numlock+mod3+super+mod5+Return=x", &[KEY_RETURN]).unwrap();
    let b = parse("CTRL+Mod1+Mod2+MOD3+tux+mod5+Return=x", &[KEY_RETURN]).unwrap();
    assert_eq!(a.key, KEY_RETURN);
    assert_eq!(a.mods, 4 + 8 + 16 + 32 + 64 + 128);
    assert_eq!(a.mods, b.mods);
    assert_eq!(a.keybutmask, b.keybutmask);
}

#[test]
fn key_name_is_lowered_before_lookup() {
    let b = parse("SHIFT+T=xterm", &[KEY_T_LOWER]).unwrap();
    assert_eq!(b.key, KEY_T_LOWER);
    assert_eq!(b.mods, 1);
}

#[test]
fn unknown_key_leaves_no_key() {
    let b = parse("ctrl+nosuchkeyname=ls", &[0]).unwrap();
    assert_eq!(b.key, 0);
    assert_eq!(b.mods, 4);
}

#[test]
fn last_resolvable_key_wins() {
    let b = parse("a+b=ls", &[KEY_A, KEY_B]).unwrap();
    assert_eq!(b.key, KEY_B);
    let c = parse("b+a+nosuchkeyname=ls", &[KEY_B, KEY_A, 0]).unwrap();
    assert_eq!(c.key, KEY_A);
}

#[test]
fn command_is_split_like_a_shell() {
    let b = parse("alt+x=sh -c \"echo hi\"", &[0x78]).unwrap();
    assert_eq!(b.cmd, Some(words(&["sh", "-c", "echo hi"])));
}

#[test]
fn unbalanced_quote_gives_no_command() {
    let b = parse("alt+x=sh -c \"echo", &[0x78]).unwrap();
    assert_eq!(b.cmd, None);
    assert_eq!(b.mods, 8);
}

#[test]
fn parsing_twice_gives_equal_bindings() {
    let a = parse("Super+Shift+t=xterm -e top", &[KEY_T_LOWER]).unwrap();
    let b = parse("Super+Shift+t=xterm -e top", &[KEY_T_LOWER]).unwrap();
    assert_eq!(a.key, b.key);
    assert_eq!(a.mods, b.mods);
    assert_eq!(a.keybutmask, b.keybutmask);
    assert_eq!(a.cmd, b.cmd);
}

#[test]
fn load_skips_comments_and_malformed_lines() {
    let lines = words(&[
        "/// a comment=with equals",
        "Super+Shift+t=xterm",
        "justtext",
        "",
        "ctrl+space=",
    ]);
    let keysyms = vec![vec![], vec![KEY_T_LOWER], vec![], vec![], vec![KEY_SPACE]];
    let c = Config::load_plain(&lines, &keysyms);
    assert_eq!(c.binds.len(), 2);
    assert_eq!(c.binds[0].key, KEY_T_LOWER);
    assert_eq!(c.binds[1].key, KEY_SPACE);
}

#[test]
fn masks_agree_with_the_protocol() {
    let b = parse("shift+control+mod1+mod2+mod3+mod4+mod5+a=x", &[KEY_A]).unwrap();
    let grab = ModMask::SHIFT | ModMask::CONTROL | ModMask::M1 | ModMask::M2 | ModMask::M3 | ModMask::M4 | ModMask::M5;
    let event = KeyButMask::SHIFT
        | KeyButMask::CONTROL
        | KeyButMask::MOD1
        | KeyButMask::MOD2
        | KeyButMask::MOD3
        | KeyButMask::MOD4
        | KeyButMask::MOD5;
    assert_eq!(b.mods, u16::from(grab));
    assert_eq!(b.keybutmask, u16::from(event));
    let s = parse("super=x", &[]).unwrap();
    assert_eq!(s.mods, u16::from(ModMask::M4));
    assert_eq!(s.keybutmask, u16::from(KeyButMask::MOD4));
}

#[test]
fn key_names_are_the_lowered_non_modifier_tokens() {
    assert_eq!(key_names("Super+Shift+T=xterm"), words(&["t"]));
    assert_eq!(key_names("a+ctrl+B=ls"), words(&["a", "b"]));
    assert_eq!(key_names("ctrl+space="), words(&["space"]));
    assert!(key_names("justtext").is_empty());
    assert!(key_names("a=b=c").is_empty());
}

#[test]
fn missing_resolution_leaves_no_key() {
    let b = parse("ctrl+a=ls", &[]).unwrap();
    assert_eq!(b.key, 0);
    assert_eq!(b.mods, 4);
}

#[test]
fn super_alone_has_no_key() {
    let b = parse("super=x", &[]).unwrap();
    assert_eq!(b.key, 0);
    assert_eq!(b.mods, 64);
}

use vstd::prelude::*;

use crate::keysym::NO_SYMBOL;
use crate::modifier::{
    event_mask_of, grab_mask_of, modifier_from_name, modifier_named, Modifier, ModifierSet,
};
use crate::text::{ascii_lower_seq, split_chars, split_on, to_lower, views};

verus! {

/// The words that shlex splits a text into, or none where the quoting is
/// unbalanced.
pub uninterp spec fn shell_words_of(s: Seq<char>) -> Option<Seq<Seq<char>>>;

/// The view of an optional argument vector.
pub open spec fn words_view(w: Option<Vec<String>>) -> Option<Seq<Seq<char>>> {
    match w {
        Some(v) => Some(views(v@)),
        None => None,
    }
}

/// Relies on shlex::split: shell-style word splitting with quoting, `None`
/// on malformed input.
#[verifier::external_body]
fn shell_split(s: &str) -> (r: Option<Vec<String>>)
    ensures
        words_view(r) == shell_words_of(s@),
{
    shlex::split(s)
}

/// One parsed rule: a key, the modifiers that must be held with it (in both
/// encodings), and the command to launch.
pub struct Bind {
    pub key: u32,
    pub mods: u16,
    pub keybutmask: u16,
    pub cmd: Option<Vec<String>>,
}

/// What a `Bind` holds, as mathematical values.
pub struct BindView {
    pub key: u32,
    pub mods: u16,
    pub keybutmask: u16,
    pub cmd: Option<Seq<Seq<char>>>,
}

impl View for Bind {
    type V = BindView;

    open spec fn view(&self) -> BindView {
        BindView { key: self.key, mods: self.mods, keybutmask: self.keybutmask, cmd: words_view(self.cmd) }
    }
}

/// The view of an optional `Bind`.
pub open spec fn opt_bind_view(b: Option<Bind>) -> Option<BindView> {
    match b {
        Some(b) => Some(b@),
        None => None,
    }
}

/// The keysym that the `i`-th key name of a line was resolved to; a name
/// without a resolution resolves to nothing.
pub open spec fn resolved_at(keysyms: Seq<u32>, i: nat) -> u32 {
    if i < keysyms.len() {
        keysyms[i as int]
    } else {
        NO_SYMBOL
    }
}

/// What has been read of the key part of a rule so far: the modifiers, the
/// key, and how many key names have been met.
pub struct KeyScan {
    pub mods: Set<Modifier>,
    pub key: u32,
    pub seen: nat,
}

/// Reads one `+`-separated token: a modifier name adds that modifier; any
/// other token is a key name, and where it resolved to a keysym that keysym
/// becomes the key, replacing an earlier one; a name that resolved to
/// nothing is skipped.
pub open spec fn scan_step(st: KeyScan, token: Seq<char>, keysyms: Seq<u32>) -> KeyScan {
    match modifier_named(ascii_lower_seq(token)) {
        Some(m) => KeyScan { mods: st.mods.insert(m), key: st.key, seen: st.seen },
        None => {
            let k = resolved_at(keysyms, st.seen);
            KeyScan { mods: st.mods, key: if k == NO_SYMBOL { st.key } else { k }, seen: st.seen + 1 }
        },
    }
}

/// Reads all the tokens, left to right, from no modifier and no key.
pub open spec fn scan_tokens(tokens: Seq<Seq<char>>, keysyms: Seq<u32>) -> KeyScan
    decreases tokens.len(),
{
    if tokens.len() == 0 {
        KeyScan { mods: Set::empty(), key: NO_SYMBOL, seen: 0 }
    } else {
        scan_step(scan_tokens(tokens.drop_last(), keysyms), tokens.last(), keysyms)
    }
}

/// The key names among the tokens, in lower case and in order: the tokens
/// that name no modifier.
pub open spec fn key_names_of(tokens: Seq<Seq<char>>) -> Seq<Seq<char>>
    decreases tokens.len(),
{
    if tokens.len() == 0 {
        Seq::empty()
    } else {
        let prev = key_names_of(tokens.drop_last());
        let name = ascii_lower_seq(tokens.last());
        if modifier_named(name).is_some() {
            prev
        } else {
            prev.push(name)
        }
    }
}

/// The key names of a line that holds exactly one `=`; none for any other.
pub open spec fn line_key_names(line: Seq<char>) -> Seq<Seq<char>> {
    let parts = split_on(line, '=');
    if parts.len() == 2 {
        key_names_of(split_on(parts[0], '+'))
    } else {
        Seq::empty()
    }
}

/// What a line parses to, given the keysyms that its key names resolved
/// to: `None` unless it holds exactly one `=`; otherwise the modifiers and
/// key read from the left side and the words of the right.
pub open spec fn parse_line(line: Seq<char>, keysyms: Seq<u32>) -> Option<BindView> {
    let parts = split_on(line, '=');
    if parts.len() == 2 {
        let scan = scan_tokens(split_on(parts[0], '+'), keysyms);
        Some(
            BindView {
                key: scan.key,
                mods: grab_mask_of(scan.mods),
                keybutmask: event_mask_of(scan.mods),
                cmd: shell_words_of(parts[1]),
            },
        )
    } else {
        None
    }
}

/// The key names of a rule line, in lower case, which are to be resolved
/// to keysyms before the line is parsed.
pub fn key_names(data: &str) -> (r: Vec<String>)
    ensures
        views(r@) == line_key_names(data@),
{
    let parts = split_chars(data, '=');
    let mut out: Vec<String> = Vec::new();
    if parts.len() == 2 {
        let keys = split_chars(parts[0].as_str(), '+');
        let ghost tokens = split_on(parts[0]@, '+');
        let mut i: usize = 0;
        while i < keys.len()
            invariant
                i <= keys.len(),
                views(keys@) == tokens,
                views(out@) == key_names_of(tokens.take(i as int)),
            decreases keys.len() - i,
        {
            proof {
                assert(tokens.take(i as int + 1).drop_last() =~= tokens.take(i as int));
                assert(tokens[i as int] == keys@[i as int]@);
            }
            let name = to_lower(keys[i].as_str());
            if modifier_from_name(name.as_str()).is_none() {
                let ghost before = out@;
                out.push(name);
                proof {
                    assert(views(out@) =~= views(before).push(name@));
                }
            }
            i = i + 1;
        }
        proof {
            assert(tokens.take(keys.len() as int) =~= tokens);
        }
    }
    out
}

/// Parses one rule of the form `MOD+...+KEY=command args`; `keysyms[i]`
/// is what the `i`-th of its key names resolved to.
pub fn plain_into_bind(data: &str, keysyms: &Vec<u32>) -> (r: Option<Bind>)
    ensures
        opt_bind_view(r) == parse_line(data@, keysyms@),
{
    let parts = split_chars(data, '=');
    if parts.len() == 2 {
        let keys = split_chars(parts[0].as_str(), '+');
        let ghost tokens = split_on(parts[0]@, '+');
        let mut mods = ModifierSet::empty();
        let mut key: u32 = NO_SYMBOL;
        let mut seen: usize = 0;
        let mut i: usize = 0;
        while i < keys.len()
            invariant
                i <= keys.len(),
                seen <= i,
                views(keys@) == tokens,
                mods@ == scan_tokens(tokens.take(i as int), keysyms@).mods,
                key == scan_tokens(tokens.take(i as int), keysyms@).key,
                seen == scan_tokens(tokens.take(i as int), keysyms@).seen,
            decreases keys.len() - i,
        {
            proof {
                assert(tokens.take(i as int + 1).drop_last() =~= tokens.take(i as int));
                assert(tokens[i as int] == keys@[i as int]@);
            }
            let name = to_lower(keys[i].as_str());
            match modifier_from_name(name.as_str()) {
                Some(m) => {
                    mods = mods.with(m);
                },
                None => {
                    let k = if seen < keysyms.len() {
                        keysyms[seen]
                    } else {
                        NO_SYMBOL
                    };
                    if k != NO_SYMBOL {
                        key = k;
                    }
                    seen = seen + 1;
                },
            }
            i = i + 1;
        }
        proof {
            assert(tokens.take(keys.len() as int) =~= tokens);
        }
        let cmd = shell_split(parts[1].as_str());
        Some(Bind { key, mods: mods.grab_mask(), keybutmask: mods.event_mask(), cmd })
    } else {
        None
    }
}

/// A line that starts with `///` is a comment.
pub open spec fn is_comment(line: Seq<char>) -> bool {
    line.len() >= 3 && line[0] == '/' && line[1] == '/' && line[2] == '/'
}

/// The resolutions of the key names of the `i`-th line; none where the
/// line has none.
pub open spec fn keysyms_at(keysyms: Seq<Seq<u32>>, i: int) -> Seq<u32> {
    if 0 <= i < keysyms.len() {
        keysyms[i]
    } else {
        Seq::empty()
    }
}

/// The rules that a sequence of lines yields, in order: comments and lines
/// that do not parse are skipped. `keysyms[i]` holds the resolutions of the
/// key names of `lines[i]`.
pub open spec fn binds_of_lines(lines: Seq<Seq<char>>, keysyms: Seq<Seq<u32>>) -> Seq<BindView>
    decreases lines.len(),
{
    if lines.len() == 0 {
        Seq::empty()
    } else {
        let prev = binds_of_lines(lines.drop_last(), keysyms);
        let line = lines.last();
        if is_comment(line) {
            prev
        } else {
            match parse_line(line, keysyms_at(keysyms, lines.len() - 1)) {
                Some(b) => prev.push(b),
                None => prev,
            }
        }
    }
}

/// The views of a sequence of rules.
pub open spec fn bind_views(binds: Seq<Bind>) -> Seq<BindView> {
    binds.map_values(|b: Bind| b@)
}

/// The active set of rules, in the order they were read.
pub struct Config {
    pub binds: Vec<Bind>,
}

impl View for Config {
    type V = Seq<BindView>;

    open spec fn view(&self) -> Seq<BindView> {
        bind_views(self.binds@)
    }
}

/// Tells whether a line is a comment.
fn line_is_comment(line: &str) -> (r: bool)
    ensures
        r == is_comment(line@),
{
    let n = line.unicode_len();
    n >= 3 && line.get_char(0) == '/' && line.get_char(1) == '/' && line.get_char(2) == '/'
}

impl Config {
    /// Builds the rule table from the lines of a configuration text;
    /// `keysyms[i]` holds what the key names of `lines[i]` resolved to.
    pub fn load_plain(lines: &Vec<String>, keysyms: &Vec<Vec<u32>>) -> (r: Config)
        ensures
            r@ == binds_of_lines(views(lines@), keysyms@.map_values(|v: Vec<u32>| v@)),
    {
        let ghost ks = keysyms@.map_values(|v: Vec<u32>| v@);
        let mut binds: Vec<Bind> = Vec::new();
        let mut i: usize = 0;
        while i < lines.len()
            invariant
                i <= lines.len(),
                bind_views(binds@) == binds_of_lines(views(lines@).take(i as int), ks),
                ks == keysyms@.map_values(|v: Vec<u32>| v@),
            decreases lines.len() - i,
        {
            proof {
                assert(views(lines@).take(i as int + 1).drop_last() =~= views(lines@).take(i as int));
                assert(views(lines@)[i as int] == lines@[i as int]@);
            }
            let line = lines[i].as_str();
            if !line_is_comment(line) {
                let empty: Vec<u32> = Vec::new();
                let resolved = if i < keysyms.len() {
                    &keysyms[i]
                } else {
                    &empty
                };
                proof {
                    assert(resolved@ == keysyms_at(ks, i as int));
                }
                match plain_into_bind(line, resolved) {
                    Some(b) => {
                        let ghost before = binds@;
                        binds.push(b);
                        proof {
                            assert(bind_views(binds@) =~= bind_views(before).push(b@));
                        }
                    },
                    None => {},
                }
            }
            i = i + 1;
        }
        proof {
            assert(views(lines@).take(lines.len() as int) =~= views(lines@));
        }
        Config { binds }
    }
}

} // verus!

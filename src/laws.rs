use vstd::prelude::*;

use crate::config::{
    key_names_of, line_key_names, parse_line, resolved_at, scan_tokens, shell_words_of, BindView,
};
use crate::daemon::{fires, launch_of, triggered, LaunchView};
use crate::grab::{grab_requests, requests_for_bind, requests_for_keycode, GrabRequest, MappingView};
use crate::keysym::NO_SYMBOL;
use crate::modifier::{event_mask_of, grab_mask_of, modifier_named, Modifier};
use crate::text::{ascii_lower_seq, lemma_split_nonempty, split_on};

verus! {

/// The modifiers that some token of the sequence names.
pub open spec fn named_modifiers(tokens: Seq<Seq<char>>) -> Set<Modifier> {
    Set::new(
        |m: Modifier|
            exists|i: int| 0 <= i < tokens.len() && modifier_named(ascii_lower_seq(tokens[i])) == Some(m),
    )
}

/// How often a character occurs in a text.
pub open spec fn count_char(s: Seq<char>, c: char) -> nat
    decreases s.len(),
{
    if s.len() == 0 {
        0
    } else {
        count_char(s.drop_last(), c) + if s.last() == c { 1nat } else { 0nat }
    }
}

/// Splitting at a character gives one piece more than it has occurrences.
pub proof fn lemma_split_len(s: Seq<char>, sep: char)
    ensures
        split_on(s, sep).len() == count_char(s, sep) + 1,
    decreases s.len(),
{
    if s.len() > 0 {
        lemma_split_len(s.drop_last(), sep);
    }
}

/// The modifiers read from the key part are exactly those that its tokens
/// name, whatever else the tokens hold.
pub proof fn lemma_scan_modifiers(tokens: Seq<Seq<char>>, keysyms: Seq<u32>)
    ensures
        scan_tokens(tokens, keysyms).mods == named_modifiers(tokens),
    decreases tokens.len(),
{
    if tokens.len() > 0 {
        let prev = tokens.drop_last();
        lemma_scan_modifiers(prev, keysyms);
        assert forall|m: Modifier|
            scan_tokens(tokens, keysyms).mods.contains(m) == named_modifiers(tokens).contains(m) by {
            if named_modifiers(tokens).contains(m) {
                let i = choose|i: int| 0 <= i < tokens.len() && modifier_named(ascii_lower_seq(tokens[i])) == Some(m);
                if i < prev.len() {
                    assert(prev[i] == tokens[i]);
                    assert(named_modifiers(prev).contains(m));
                }
            }
            if named_modifiers(prev).contains(m) {
                let i = choose|i: int| 0 <= i < prev.len() && modifier_named(ascii_lower_seq(prev[i])) == Some(m);
                assert(tokens[i] == prev[i]);
            }
        }
        assert(scan_tokens(tokens, keysyms).mods =~= named_modifiers(tokens));
    }
}

/// The scan meets the key names one by one.
pub proof fn lemma_scan_seen(tokens: Seq<Seq<char>>, keysyms: Seq<u32>)
    ensures
        scan_tokens(tokens, keysyms).seen == key_names_of(tokens).len(),
    decreases tokens.len(),
{
    if tokens.len() > 0 {
        lemma_scan_seen(tokens.drop_last(), keysyms);
    }
}

/// Where no key name resolved to a keysym, no key is set.
pub proof fn lemma_scan_no_key(tokens: Seq<Seq<char>>, keysyms: Seq<u32>)
    requires
        forall|i: int| 0 <= i < keysyms.len() ==> keysyms[i] == NO_SYMBOL,
    ensures
        scan_tokens(tokens, keysyms).key == NO_SYMBOL,
    decreases tokens.len(),
{
    if tokens.len() > 0 {
        lemma_scan_no_key(tokens.drop_last(), keysyms);
    }
}

/// A line with one `=`, whose last `+`-separated token before it is a key
/// name that resolved to a keysym, parses to that keysym, to the union of
/// the modifiers that its tokens name (in both encodings), and to the words
/// of the part after the `=`.
pub proof fn lemma_parse_well_formed(line: Seq<char>, keysyms: Seq<u32>)
    requires
        count_char(line, '=') == 1,
        modifier_named(ascii_lower_seq(split_on(split_on(line, '=')[0], '+').last())).is_none(),
        resolved_at(keysyms, (line_key_names(line).len() - 1) as nat) != NO_SYMBOL,
    ensures
        ({
            let parts = split_on(line, '=');
            let tokens = split_on(parts[0], '+');
            let names = line_key_names(line);
            &&& names.len() > 0
            &&& names.last() == ascii_lower_seq(tokens.last())
            &&& parse_line(line, keysyms) == Some(
                BindView {
                    key: resolved_at(keysyms, (names.len() - 1) as nat),
                    mods: grab_mask_of(named_modifiers(tokens)),
                    keybutmask: event_mask_of(named_modifiers(tokens)),
                    cmd: shell_words_of(parts[1]),
                },
            )
        }),
{
    lemma_split_len(line, '=');
    let tokens = split_on(split_on(line, '=')[0], '+');
    lemma_split_nonempty(split_on(line, '=')[0], '+');
    lemma_scan_modifiers(tokens, keysyms);
    lemma_scan_seen(tokens.drop_last(), keysyms);
}

/// Parsing depends on the line and its resolutions alone: two parses of one
/// line agree.
pub proof fn lemma_parse_deterministic(
    line: Seq<char>,
    keysyms: Seq<u32>,
    first: Option<BindView>,
    second: Option<BindView>,
)
    requires
        first == parse_line(line, keysyms),
        second == parse_line(line, keysyms),
    ensures
        first == second,
{
}

/// A line without exactly one `=` is rejected.
pub proof fn lemma_parse_rejects(line: Seq<char>, keysyms: Seq<u32>)
    requires
        count_char(line, '=') != 1,
    ensures
        parse_line(line, keysyms).is_none(),
{
    lemma_split_len(line, '=');
}

/// A line with one `=` whose key names resolved to nothing parses to a rule
/// without a key.
pub proof fn lemma_parse_without_key(line: Seq<char>, keysyms: Seq<u32>)
    requires
        count_char(line, '=') == 1,
        forall|i: int| 0 <= i < keysyms.len() ==> keysyms[i] == NO_SYMBOL,
    ensures
        parse_line(line, keysyms) matches Some(b) && b.key == NO_SYMBOL,
{
    lemma_split_len(line, '=');
    lemma_scan_no_key(split_on(split_on(line, '=')[0], '+'), keysyms);
}

/// A rule without a key asks for no grab on any keycode.
pub proof fn lemma_keyless_bind_not_grabbed(b: BindView, min_keycode: u32, table: Seq<Seq<u32>>)
    requires
        b.key == NO_SYMBOL,
    ensures
        requests_for_bind(b, min_keycode, table) == Seq::<GrabRequest>::empty(),
    decreases table.len(),
{
    if table.len() > 0 {
        lemma_keyless_bind_not_grabbed(b, min_keycode, table.drop_last());
        lemma_keyless_keycode(b, (min_keycode + table.len() - 1) as u32, table.last());
        assert(Seq::<GrabRequest>::empty() + Seq::<GrabRequest>::empty() =~= Seq::<GrabRequest>::empty());
    }
}

proof fn lemma_keyless_keycode(b: BindView, keycode: u32, syms: Seq<u32>)
    requires
        b.key == NO_SYMBOL,
    ensures
        requests_for_keycode(b, keycode, syms) == Seq::<GrabRequest>::empty(),
    decreases syms.len(),
{
    if syms.len() > 0 {
        lemma_keyless_keycode(b, keycode, syms.drop_last());
    }
}

/// Grabbing a table from no grab and then releasing it leaves no grab; and
/// releasing a table while nothing is grabbed changes nothing.
pub proof fn lemma_install_uninstall(binds: Seq<BindView>, m: MappingView)
    ensures
        ({
            let reqs = grab_requests(binds, m).to_set();
            &&& Set::<GrabRequest>::empty().union(reqs).difference(reqs) == Set::<GrabRequest>::empty()
            &&& Set::<GrabRequest>::empty().difference(reqs) == Set::<GrabRequest>::empty()
        }),
{
    let reqs = grab_requests(binds, m).to_set();
    assert(Set::<GrabRequest>::empty().union(reqs).difference(reqs) =~= Set::<GrabRequest>::empty());
    assert(Set::<GrabRequest>::empty().difference(reqs) =~= Set::<GrabRequest>::empty());
}

/// A launch fires on a key press exactly when some rule of the table fires
/// and has that launch.
pub proof fn lemma_triggered_members(binds: Seq<BindView>, state: u16, sym: u32)
    ensures
        forall|l: LaunchView|
            triggered(binds, state, sym).contains(l) <==> exists|i: int|
                0 <= i < binds.len() && fires(#[trigger] binds[i], state, sym) && l == launch_of(binds[i]),
    decreases binds.len(),
{
    if binds.len() > 0 {
        let prev = binds.drop_last();
        lemma_triggered_members(prev, state, sym);
        let t = triggered(binds, state, sym);
        let tp = triggered(prev, state, sym);
        assert forall|l: LaunchView|
            t.contains(l) <==> exists|i: int|
                0 <= i < binds.len() && fires(#[trigger] binds[i], state, sym) && l == launch_of(binds[i]) by {
            let last = binds.len() - 1;
            if t.contains(l) {
                if tp.contains(l) {
                    let i = choose|i: int| 0 <= i < prev.len() && fires(#[trigger] prev[i], state, sym) && l == launch_of(prev[i]);
                    assert(binds[i] == prev[i]);
                } else {
                    let k = choose|k: int| 0 <= k < t.len() && t[k] == l;
                    assert(binds[last] == binds.last());
                    if fires(binds.last(), state, sym) {
                        assert(t == tp.push(launch_of(binds.last())));
                        if k < tp.len() {
                            assert(tp[k] == l);
                        }
                        assert(l == launch_of(binds[last]));
                        assert(fires(binds[last], state, sym));
                    } else {
                        assert(t == tp);
                    }
                }
            }
            if exists|i: int| 0 <= i < binds.len() && fires(#[trigger] binds[i], state, sym) && l == launch_of(binds[i]) {
                let i = choose|i: int| 0 <= i < binds.len() && fires(#[trigger] binds[i], state, sym) && l == launch_of(binds[i]);
                if i < prev.len() {
                    assert(prev[i] == binds[i]);
                    assert(fires(prev[i], state, sym));
                    assert(tp.contains(l));
                    let k = choose|k: int| 0 <= k < tp.len() && tp[k] == l;
                    if fires(binds.last(), state, sym) {
                        assert(t == tp.push(launch_of(binds.last())));
                        assert(t[k] == l);
                    } else {
                        assert(t == tp);
                    }
                } else {
                    assert(binds[i] == binds.last());
                    assert(t == tp.push(launch_of(binds.last())));
                    assert(t[t.len() - 1] == l);
                }
            }
        }
    }
}

/// Which launches fire depends only on which rules the table holds, not on
/// their order.
pub proof fn lemma_triggered_order_free(a: Seq<BindView>, b: Seq<BindView>, state: u16, sym: u32)
    requires
        a.to_set() == b.to_set(),
    ensures
        triggered(a, state, sym).to_set() == triggered(b, state, sym).to_set(),
{
    lemma_triggered_members(a, state, sym);
    lemma_triggered_members(b, state, sym);
    assert forall|l: LaunchView| triggered(a, state, sym).to_set().contains(l) implies triggered(b, state, sym).to_set().contains(l) by {
        let i = choose|i: int| 0 <= i < a.len() && fires(#[trigger] a[i], state, sym) && l == launch_of(a[i]);
        assert(a.to_set().contains(a[i]));
        assert(b.contains(a[i]));
        let j = choose|j: int| 0 <= j < b.len() && b[j] == a[i];
        assert(fires(b[j], state, sym));
    }
    assert forall|l: LaunchView| triggered(b, state, sym).to_set().contains(l) implies triggered(a, state, sym).to_set().contains(l) by {
        let i = choose|i: int| 0 <= i < b.len() && fires(#[trigger] b[i], state, sym) && l == launch_of(b[i]);
        assert(b.to_set().contains(b[i]));
        assert(a.contains(b[i]));
        let j = choose|j: int| 0 <= j < a.len() && a[j] == b[i];
        assert(fires(a[j], state, sym));
    }
    assert(triggered(a, state, sym).to_set() =~= triggered(b, state, sym).to_set());
}

/// A reload from a daemon that holds exactly its table's grabs leaves it
/// holding exactly the new table's grabs, and every launch that a key press
/// fires afterwards comes from a rule of the new table.
pub proof fn lemma_reload_whole_table(
    old_binds: Seq<BindView>,
    new_binds: Seq<BindView>,
    m: MappingView,
    state: u16,
    sym: u32,
)
    ensures
        ({
            let before = grab_requests(old_binds, m).to_set();
            let after = grab_requests(new_binds, m).to_set();
            before.difference(before).union(after) == after
        }),
        forall|l: LaunchView|
            triggered(new_binds, state, sym).contains(l) ==> exists|i: int|
                0 <= i < new_binds.len() && fires(#[trigger] new_binds[i], state, sym) && l == launch_of(new_binds[i]),
{
    let before = grab_requests(old_binds, m).to_set();
    let after = grab_requests(new_binds, m).to_set();
    assert(before.difference(before).union(after) =~= after);
    lemma_triggered_members(new_binds, state, sym);
}

} // verus!

use vstd::prelude::*;

use crate::config::{BindView, Config};
use crate::keysym::{keysym_name, keysym_name_of, NO_SYMBOL};

verus! {

/// One exclusive key grab at the root window: a keycode under a modifier
/// mask.
#[derive(Clone, Copy, Debug, PartialEq, Eq, Structural)]
pub struct GrabRequest {
    pub keycode: u32,
    pub mods: u16,
}

/// A snapshot of the keyboard layout: the symbols at the primary position
/// (group 0, level 0) of each keycode from `min_keycode` on.
pub struct KeyboardMapping {
    pub min_keycode: u32,
    pub syms: Vec<Vec<u32>>,
}

/// What a `KeyboardMapping` holds, as mathematical values.
pub struct MappingView {
    pub min_keycode: u32,
    pub syms: Seq<Seq<u32>>,
}

impl View for KeyboardMapping {
    type V = MappingView;

    open spec fn view(&self) -> MappingView {
        MappingView { min_keycode: self.min_keycode, syms: self.syms@.map_values(|v: Vec<u32>| v@) }
    }
}

impl MappingView {
    /// Every keycode of the snapshot fits in a `u32`.
    pub open spec fn wf(self) -> bool {
        self.min_keycode + self.syms.len() <= u32::MAX
    }
}

/// A symbol on the keyboard stands for a rule's key when both have a name
/// and the names are equal; a rule without a key matches nothing.
pub open spec fn names_match(key: u32, sym: u32) -> bool {
    key != NO_SYMBOL && keysym_name_of(key).is_some() && keysym_name_of(sym) == keysym_name_of(key)
}

/// The grabs that one rule needs on one keycode, given that keycode's symbols.
pub open spec fn requests_for_keycode(b: BindView, keycode: u32, syms: Seq<u32>) -> Seq<GrabRequest>
    decreases syms.len(),
{
    if syms.len() == 0 {
        Seq::empty()
    } else {
        let prev = requests_for_keycode(b, keycode, syms.drop_last());
        if names_match(b.key, syms.last()) {
            prev.push(GrabRequest { keycode, mods: b.mods })
        } else {
            prev
        }
    }
}

/// The grabs that one rule needs over the keycodes `min_keycode ..
/// min_keycode + table.len()`.
pub open spec fn requests_for_bind(b: BindView, min_keycode: u32, table: Seq<Seq<u32>>) -> Seq<GrabRequest>
    decreases table.len(),
{
    if table.len() == 0 {
        Seq::empty()
    } else {
        requests_for_bind(b, min_keycode, table.drop_last()) + requests_for_keycode(
            b,
            (min_keycode + table.len() - 1) as u32,
            table.last(),
        )
    }
}

/// The grabs for a whole rule table: rule by rule, keycode by keycode.
pub open spec fn grab_requests(binds: Seq<BindView>, m: MappingView) -> Seq<GrabRequest>
    decreases binds.len(),
{
    if binds.len() == 0 {
        Seq::empty()
    } else {
        grab_requests(binds.drop_last(), m) + requests_for_bind(binds.last(), m.min_keycode, m.syms)
    }
}

/// Tells whether a symbol stands for a rule's key, given the key's name.
fn sym_matches(key: u32, key_name: &Option<String>, sym: u32) -> (r: bool)
    requires
        match key_name {
            Some(s) => keysym_name_of(key) == Some(s@),
            None => keysym_name_of(key).is_none(),
        },
    ensures
        r == names_match(key, sym),
{
    if key == NO_SYMBOL {
        return false;
    }
    match key_name {
        None => false,
        Some(kn) => match keysym_name(sym) {
            None => false,
            Some(sn) => sn == *kn,
        },
    }
}

/// Computes the grabs that a rule table needs under a keyboard snapshot.
pub fn plan_grabs(config: &Config, mapping: &KeyboardMapping) -> (r: Vec<GrabRequest>)
    requires
        mapping@.wf(),
    ensures
        r@ == grab_requests(config@, mapping@),
{
    let ghost m = mapping@;
    let mut out: Vec<GrabRequest> = Vec::new();
    let mut i: usize = 0;
    while i < config.binds.len()
        invariant
            i <= config.binds.len(),
            m == mapping@,
            m.wf(),
            out@ == grab_requests(config@.take(i as int), m),
        decreases config.binds.len() - i,
    {
        let b = &config.binds[i];
        let ghost bv = config@[i as int];
        proof {
            assert(config@.take(i as int + 1).drop_last() =~= config@.take(i as int));
            assert(bv == b@);
        }
        let key_name = keysym_name(b.key);
        let ghost before_bind = out@;
        let mut k: usize = 0;
        while k < mapping.syms.len()
            invariant
                i < config.binds.len(),
                k <= mapping.syms.len(),
                m == mapping@,
                m.wf(),
                bv == b@,
                match key_name {
                    Some(s) => keysym_name_of(b.key) == Some(s@),
                    None => keysym_name_of(b.key).is_none(),
                },
                out@ == before_bind + requests_for_bind(bv, m.min_keycode, m.syms.take(k as int)),
            decreases mapping.syms.len() - k,
        {
            let keycode: u32 = mapping.min_keycode + k as u32;
            let syms = &mapping.syms[k];
            proof {
                assert(m.syms.take(k as int + 1).drop_last() =~= m.syms.take(k as int));
                assert(m.syms[k as int] == syms@);
            }
            let ghost before_key = out@;
            let mut j: usize = 0;
            while j < syms.len()
                invariant
                    j <= syms.len(),
                    bv == b@,
                    match key_name {
                        Some(s) => keysym_name_of(b.key) == Some(s@),
                        None => keysym_name_of(b.key).is_none(),
                    },
                    out@ == before_key + requests_for_keycode(bv, keycode, syms@.take(j as int)),
                decreases syms.len() - j,
            {
                proof {
                    assert(syms@.take(j as int + 1).drop_last() =~= syms@.take(j as int));
                }
                if sym_matches(b.key, &key_name, syms[j]) {
                    out.push(GrabRequest { keycode, mods: b.mods });
                }
                proof {
                    let t = syms@.take(j as int + 1);
                    assert(t.last() == syms@[j as int]);
                    assert(out@ =~= before_key + requests_for_keycode(bv, keycode, t));
                }
                j = j + 1;
            }
            proof {
                assert(syms@.take(syms@.len() as int) =~= syms@);
                let t = m.syms.take(k as int + 1);
                assert(t.last() == syms@);
                assert(t.len() == k + 1);
                assert(out@ =~= before_bind + requests_for_bind(bv, m.min_keycode, t));
            }
            k = k + 1;
        }
        proof {
            assert(m.syms.take(m.syms.len() as int) =~= m.syms);
            let t = config@.take(i as int + 1);
            assert(t.last() == bv);
        }
        i = i + 1;
    }
    proof {
        assert(config@.take(config@.len() as int) =~= config@);
    }
    out
}

/// Tells whether a list of grabs holds one.
fn holds(v: &Vec<GrabRequest>, g: GrabRequest) -> (r: bool)
    ensures
        r == v@.contains(g),
{
    let mut i: usize = 0;
    while i < v.len()
        invariant
            i <= v.len(),
            forall|j: int| 0 <= j < i ==> v@[j] != g,
        decreases v.len() - i,
    {
        if v[i] == g {
            return true;
        }
        i = i + 1;
    }
    false
}

/// The grabs currently registered with the server.
pub struct GrabSet {
    entries: Vec<GrabRequest>,
}

impl View for GrabSet {
    type V = Set<GrabRequest>;

    closed spec fn view(&self) -> Set<GrabRequest> {
        self.entries@.to_set()
    }
}

impl GrabSet {
    /// A set with no grab.
    pub fn new() -> (r: GrabSet)
        ensures
            r@ == Set::<GrabRequest>::empty(),
    {
        let r = GrabSet { entries: Vec::new() };
        proof {
            assert(r@ =~= Set::<GrabRequest>::empty());
        }
        r
    }

    /// Tells whether no grab is registered.
    pub fn is_empty(&self) -> (r: bool)
        ensures
            r == (self@ == Set::<GrabRequest>::empty()),
    {
        proof {
            if self.entries@.len() > 0 {
                assert(self@.contains(self.entries@[0]));
            } else {
                assert(self@ =~= Set::<GrabRequest>::empty());
            }
        }
        self.entries.len() == 0
    }

    /// Tells whether a grab is registered.
    pub fn contains(&self, g: GrabRequest) -> (r: bool)
        ensures
            r == self@.contains(g),
    {
        holds(&self.entries, g)
    }

    /// Records the grabs of `reqs` as registered.
    pub fn install(&mut self, reqs: &Vec<GrabRequest>)
        ensures
            final(self)@ == old(self)@.union(reqs@.to_set()),
    {
        let ghost start = self.entries@;
        let mut i: usize = 0;
        while i < reqs.len()
            invariant
                i <= reqs.len(),
                self.entries@ == start + reqs@.take(i as int),
            decreases reqs.len() - i,
        {
            self.entries.push(reqs[i]);
            proof {
                assert(self.entries@ =~= start + reqs@.take(i as int + 1));
            }
            i = i + 1;
        }
        proof {
            assert(reqs@.take(reqs.len() as int) =~= reqs@);
            assert(self@ =~= old(self)@.union(reqs@.to_set())) by {
                assert forall|g: GrabRequest| self@.contains(g) == (old(self)@.contains(g) || reqs@.to_set().contains(g)) by {
                    if self@.contains(g) {
                        let j = choose|j: int| 0 <= j < self.entries@.len() && self.entries@[j] == g;
                        if j >= start.len() {
                            assert(reqs@[j - start.len()] == g);
                        }
                    }
                    if old(self)@.contains(g) {
                        let j = choose|j: int| 0 <= j < start.len() && start[j] == g;
                        assert(self.entries@[j] == g);
                    }
                    if reqs@.to_set().contains(g) {
                        let j = choose|j: int| 0 <= j < reqs@.len() && reqs@[j] == g;
                        assert(self.entries@[start.len() + j] == g);
                    }
                }
            }
        }
    }

    /// Removes the grabs of `reqs` from the registered ones.
    pub fn uninstall(&mut self, reqs: &Vec<GrabRequest>)
        ensures
            final(self)@ == old(self)@.difference(reqs@.to_set()),
    {
        let mut kept: Vec<GrabRequest> = Vec::new();
        let mut i: usize = 0;
        while i < self.entries.len()
            invariant
                i <= self.entries@.len(),
                self.entries@ == old(self).entries@,
                forall|g: GrabRequest| kept@.contains(g) <==> (self.entries@.take(i as int).contains(g) && !reqs@.contains(g)),
            decreases self.entries.len() - i,
        {
            let g = self.entries[i];
            let ghost before = kept@;
            let ghost drop = reqs@.contains(g);
            assert(forall|h: GrabRequest| before.contains(h) <==> (self.entries@.take(i as int).contains(h) && !reqs@.contains(h)));
            if !holds(reqs, g) {
                kept.push(g);
            }
            proof {
                let t = self.entries@.take(i as int + 1);
                assert(t =~= self.entries@.take(i as int).push(g));
                assert forall|h: GrabRequest| kept@.contains(h) <==> (before.contains(h) || (h == g && !drop)) by {
                    if !drop {
                        assert(kept@ == before.push(g));
                        if before.contains(h) {
                            let j = choose|j: int| 0 <= j < before.len() && before[j] == h;
                            assert(kept@[j] == h);
                        }
                        if kept@.contains(h) && h != g {
                            let j = choose|j: int| 0 <= j < kept@.len() && kept@[j] == h;
                            assert(before[j] == h);
                        }
                        if h == g {
                            assert(kept@[before.len() as int] == h);
                        }
                    }
                }
                assert forall|h: GrabRequest| t.contains(h) <==> (self.entries@.take(i as int).contains(h) || h == g) by {
                    if t.contains(h) && h != g {
                        let j = choose|j: int| 0 <= j < t.len() && t[j] == h;
                        assert(self.entries@.take(i as int)[j] == h);
                    }
                    if self.entries@.take(i as int).contains(h) {
                        let j = choose|j: int| 0 <= j < i && self.entries@.take(i as int)[j] == h;
                        assert(t[j] == h);
                    }
                    if h == g {
                        assert(t[i as int] == h);
                    }
                }
                assert forall|h: GrabRequest| kept@.contains(h) <==> (t.contains(h) && !reqs@.contains(h)) by {
                    assert(kept@.contains(h) <==> (before.contains(h) || (h == g && !drop)));
                    assert(t.contains(h) <==> (self.entries@.take(i as int).contains(h) || h == g));
                    assert(before.contains(h) <==> (self.entries@.take(i as int).contains(h) && !reqs@.contains(h)));
                }
            }
            i = i + 1;
        }
        proof {
            assert(self.entries@.take(self.entries@.len() as int) =~= self.entries@);
        }
        self.entries = kept;
        proof {
            assert(self@ =~= old(self)@.difference(reqs@.to_set()));
        }
    }
}

} // verus!

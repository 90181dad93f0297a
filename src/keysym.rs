use vstd::prelude::*;

verus! {

/// The keysym value that stands for "no symbol".
pub const NO_SYMBOL: u32 = 0;

/// The name that xkeysym gives a keysym, where it has one.
pub uninterp spec fn keysym_name_of(sym: u32) -> Option<Seq<char>>;

/// Relies on xkeysym's Keysym::name: the fixed name of a keysym, or none.
#[verifier::external_body]
pub(crate) fn keysym_name(sym: u32) -> (r: Option<String>)
    ensures
        match r {
            Some(s) => keysym_name_of(sym) == Some(s@),
            None => keysym_name_of(sym).is_none(),
        },
{
    xkeysym::Keysym::new(sym).name().map(|n| n.to_string())
}

} // verus!

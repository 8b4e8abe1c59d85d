//! The two mapping tables for ethic tokens — display names and `ethic_`
//! slugs — and the display rendering that the cache format uses.
use crate::model::{Ethic, EthicV};
use crate::text::{
    append, bytes_eq, lit_disp_authoritarian, lit_disp_egalitarian, lit_disp_gestalt,
    lit_disp_materialist, lit_disp_militarist, lit_disp_other, lit_disp_pacifist,
    lit_disp_spiritualist, lit_disp_xenophile, lit_disp_xenophobe, lit_slug_authoritarian,
    lit_slug_egalitarian, lit_slug_gestalt, lit_slug_materialist, lit_slug_militarist,
    lit_slug_pacifist, lit_slug_spiritualist, lit_slug_xenophile, lit_slug_xenophobe, match_at,
    mk_disp_authoritarian, mk_disp_egalitarian, mk_disp_gestalt, mk_disp_materialist,
    mk_disp_militarist, mk_disp_other, mk_disp_pacifist, mk_disp_spiritualist, mk_disp_xenophile,
    mk_disp_xenophobe, mk_slug_authoritarian, mk_slug_egalitarian, mk_slug_gestalt,
    mk_slug_materialist, mk_slug_militarist, mk_slug_pacifist, mk_slug_spiritualist,
    mk_slug_xenophile, mk_slug_xenophobe, slice_of,
};
use vstd::prelude::*;

verus! {

/// The ethic a display-name token maps to; unrecognized tokens are kept
/// verbatim.
pub open spec fn read_to_ethic_spec(s: Seq<u8>) -> EthicV {
    if s == lit_disp_gestalt() {
        EthicV::Gestalt
    } else if s == lit_disp_spiritualist() {
        EthicV::Spiritualist
    } else if s == lit_disp_materialist() {
        EthicV::Materialist
    } else if s == lit_disp_egalitarian() {
        EthicV::Egalitarian
    } else if s == lit_disp_authoritarian() {
        EthicV::Authoritarian
    } else if s == lit_disp_pacifist() {
        EthicV::Pacifist
    } else if s == lit_disp_militarist() {
        EthicV::Militarist
    } else if s == lit_disp_xenophile() {
        EthicV::Xenophile
    } else if s == lit_disp_xenophobe() {
        EthicV::Xenophobe
    } else {
        EthicV::Non(s)
    }
}

/// The ethic an `ethic_` slug token maps to; unrecognized tokens are kept
/// verbatim.
pub open spec fn str_to_ethic_spec(s: Seq<u8>) -> EthicV {
    if s == lit_slug_gestalt() {
        EthicV::Gestalt
    } else if s == lit_slug_spiritualist() {
        EthicV::Spiritualist
    } else if s == lit_slug_materialist() {
        EthicV::Materialist
    } else if s == lit_slug_egalitarian() {
        EthicV::Egalitarian
    } else if s == lit_slug_authoritarian() {
        EthicV::Authoritarian
    } else if s == lit_slug_pacifist() {
        EthicV::Pacifist
    } else if s == lit_slug_militarist() {
        EthicV::Militarist
    } else if s == lit_slug_xenophile() {
        EthicV::Xenophile
    } else if s == lit_slug_xenophobe() {
        EthicV::Xenophobe
    } else {
        EthicV::Non(s)
    }
}

/// The display name of an ethic: the nine names, or `"other: "` followed by
/// the verbatim token.
pub open spec fn display_of(e: EthicV) -> Seq<u8> {
    match e {
        EthicV::Gestalt => lit_disp_gestalt(),
        EthicV::Spiritualist => lit_disp_spiritualist(),
        EthicV::Materialist => lit_disp_materialist(),
        EthicV::Egalitarian => lit_disp_egalitarian(),
        EthicV::Authoritarian => lit_disp_authoritarian(),
        EthicV::Pacifist => lit_disp_pacifist(),
        EthicV::Militarist => lit_disp_militarist(),
        EthicV::Xenophile => lit_disp_xenophile(),
        EthicV::Xenophobe => lit_disp_xenophobe(),
        EthicV::Non(s) => lit_disp_other() + s,
    }
}

/// The ethic a cache token decodes to: an `"other: "` prefix marks a
/// verbatim token, anything else goes through the display-name table.
pub open spec fn cache_ethic_of(s: Seq<u8>) -> EthicV {
    if s.len() >= 7 && s.subrange(0, 7) == lit_disp_other() {
        EthicV::Non(s.subrange(7, s.len() as int))
    } else {
        read_to_ethic_spec(s)
    }
}

/// Display rendering inverts cache decoding on every ethic.
pub proof fn lemma_ethic_display_round(e: EthicV)
    ensures
        cache_ethic_of(display_of(e)) == e,
{
    match e {
        EthicV::Non(s) => {
            let d = display_of(e);
            assert(d.subrange(0, 7) =~= lit_disp_other());
            assert(d.subrange(7, d.len() as int) =~= s);
        },
        _ => {
            assert(display_of(e).subrange(0, 7) != lit_disp_other()) by {
                assert(display_of(e)[0] != 'o' as u8);
                assert(lit_disp_other()[0] == 'o' as u8);
            }
        },
    }
}

/// The display name of a tab-free ethic token holds no tab byte.
pub proof fn lemma_display_no_tab(e: EthicV)
    requires
        (e is Non ==> forall|k: int|
            0 <= k < e->0.len() ==> e->0[k] != 10u8 && #[trigger] e->0[k] != 9u8),
    ensures
        forall|k: int| 0 <= k < display_of(e).len() ==> #[trigger] display_of(e)[k] != 9u8,
{
    match e {
        EthicV::Non(s) => {
            let d = display_of(e);
            assert forall|k: int| 0 <= k < d.len() implies #[trigger] d[k] != 9u8 by {
                if k < 7 {
                    assert(d[k] == lit_disp_other()[k]);
                } else {
                    assert(d[k] == s[k - 7]);
                }
            }
        },
        _ => {},
    }
}

impl Ethic {
    /// Maps a display-name token of the cache format to an ethic.
    pub fn read_to_ethic(inp: &Vec<u8>) -> (r: Ethic)
        ensures
            r@ == read_to_ethic_spec(inp@),
    {
        if bytes_eq(inp, &mk_disp_gestalt()) {
            Ethic::Gestalt
        } else if bytes_eq(inp, &mk_disp_spiritualist()) {
            Ethic::Spiritualist
        } else if bytes_eq(inp, &mk_disp_materialist()) {
            Ethic::Materialist
        } else if bytes_eq(inp, &mk_disp_egalitarian()) {
            Ethic::Egalitarian
        } else if bytes_eq(inp, &mk_disp_authoritarian()) {
            Ethic::Authoritarian
        } else if bytes_eq(inp, &mk_disp_pacifist()) {
            Ethic::Pacifist
        } else if bytes_eq(inp, &mk_disp_militarist()) {
            Ethic::Militarist
        } else if bytes_eq(inp, &mk_disp_xenophile()) {
            Ethic::Xenophile
        } else if bytes_eq(inp, &mk_disp_xenophobe()) {
            Ethic::Xenophobe
        } else {
            Ethic::Non(slice_of(inp, 0, inp.len()))
        }
    }

    /// Maps an `ethic_` slug token of the gamestate format to an ethic.
    pub fn str_to_ethic(inp: &Vec<u8>) -> (r: Ethic)
        ensures
            r@ == str_to_ethic_spec(inp@),
    {
        if bytes_eq(inp, &mk_slug_gestalt()) {
            Ethic::Gestalt
        } else if bytes_eq(inp, &mk_slug_spiritualist()) {
            Ethic::Spiritualist
        } else if bytes_eq(inp, &mk_slug_materialist()) {
            Ethic::Materialist
        } else if bytes_eq(inp, &mk_slug_egalitarian()) {
            Ethic::Egalitarian
        } else if bytes_eq(inp, &mk_slug_authoritarian()) {
            Ethic::Authoritarian
        } else if bytes_eq(inp, &mk_slug_pacifist()) {
            Ethic::Pacifist
        } else if bytes_eq(inp, &mk_slug_militarist()) {
            Ethic::Militarist
        } else if bytes_eq(inp, &mk_slug_xenophile()) {
            Ethic::Xenophile
        } else if bytes_eq(inp, &mk_slug_xenophobe()) {
            Ethic::Xenophobe
        } else {
            Ethic::Non(slice_of(inp, 0, inp.len()))
        }
    }

    /// An equal copy of the ethic.
    pub fn duplicate(&self) -> (r: Ethic)
        ensures
            r@ == self@,
    {
        match self {
            Ethic::Gestalt => Ethic::Gestalt,
            Ethic::Spiritualist => Ethic::Spiritualist,
            Ethic::Materialist => Ethic::Materialist,
            Ethic::Egalitarian => Ethic::Egalitarian,
            Ethic::Authoritarian => Ethic::Authoritarian,
            Ethic::Pacifist => Ethic::Pacifist,
            Ethic::Militarist => Ethic::Militarist,
            Ethic::Xenophile => Ethic::Xenophile,
            Ethic::Xenophobe => Ethic::Xenophobe,
            Ethic::Non(s) => Ethic::Non(slice_of(s, 0, s.len())),
        }
    }

    /// Renders the display name of the ethic.
    pub fn display(&self) -> (r: Vec<u8>)
        ensures
            r@ == display_of(self@),
    {
        match self {
            Ethic::Gestalt => mk_disp_gestalt(),
            Ethic::Spiritualist => mk_disp_spiritualist(),
            Ethic::Materialist => mk_disp_materialist(),
            Ethic::Egalitarian => mk_disp_egalitarian(),
            Ethic::Authoritarian => mk_disp_authoritarian(),
            Ethic::Pacifist => mk_disp_pacifist(),
            Ethic::Militarist => mk_disp_militarist(),
            Ethic::Xenophile => mk_disp_xenophile(),
            Ethic::Xenophobe => mk_disp_xenophobe(),
            Ethic::Non(s) => {
                let mut v = mk_disp_other();
                append(&mut v, s);
                v
            },
        }
    }

    /// Decodes an ethic token of the cache format.
    pub fn cache_ethic(inp: &Vec<u8>) -> (r: Ethic)
        ensures
            r@ == cache_ethic_of(inp@),
    {
        let other = mk_disp_other();
        if match_at(inp, 0, &other) {
            Ethic::Non(slice_of(inp, 7, inp.len()))
        } else {
            Ethic::read_to_ethic(inp)
        }
    }
}

} // verus!

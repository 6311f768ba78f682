//! Vorverarbeitung: den Sammlungsnamen aus einem Dateinamen lesen.

use vstd::prelude::*;
use vstd::string::{StrSliceExecFns, StringExecFns};
use crate::pfad::{dateistamm, dateistamm_von, erstes, erstes_in, lemma_erstes, lemma_kodierung_nicht_leer, sammlungsname};

verus! {

/// Liest aus einem Dateistamm wie `beitrag+{id}` den Sammlungsnamen `id`.
/// Steht das erste `{` ganz vorn, kann kein `+` davor stehen: `None`.
pub fn collection_name(pfad: &str) -> (res: Option<String>)
    ensures
        match sammlungsname(pfad@) {
            Some(k) => res matches Some(r) && r@ == k,
            None => res is None,
        },
{
    let stamm = match dateistamm_von(pfad) {
        None => {
            return None;
        },
        Some(s) => s,
    };
    let st = stamm.as_str();
    let n = st.unicode_len();
    proof {
        lemma_erstes(stamm@, '{');
        lemma_erstes(stamm@, '}');
        assert(stamm@.subrange(0, n as int) =~= stamm@);
    }
    let start = match erstes_in(st, 0, n, '{') {
        None => {
            return None;
        },
        Some(i) => i,
    };
    let ende = match erstes_in(st, 0, n, '}') {
        None => {
            return None;
        },
        Some(i) => i,
    };
    assert(dateistamm(pfad@) == Some(stamm@));
    assert(erstes(stamm@, '{') == Some(start as int));
    assert(erstes(stamm@, '}') == Some(ende as int));
    if start < ende && start > 0 {
        let vorn = st.substring_char(0, start);
        let k = vorn.as_bytes().len();
        proof {
            vstd::utf8::encode_utf8_valid_utf8(vorn@);
            if start > 0 {
                lemma_kodierung_nicht_leer(vorn@);
            }
        }
        assert(vorn@ == stamm@.subrange(0, start as int));
        if k - 1 < n && st.get_char(k - 1) == '+' {
            Some(String::from_str(st.substring_char(start + 1, ende)))
        } else {
            None
        }
    } else {
        None
    }
}
/// Die Vorverarbeitung selbst hat (noch) nichts zu tun.
pub fn process() {
}

} // verus!

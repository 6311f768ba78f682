//! Die Presse: ein Dokument in das, was innerhalb eines Tags steht, und den
//! Rest zerlegen.

use vstd::prelude::*;
use crate::leser::{lemma_lesung_gueltig, lesungen_wohlgeformt};
use vstd::string::{StringExecFns, StringSliceAdditionalSpecFns};
use crate::ereignis::{ereignis_bytes, ereignis_schreiben, XmlEreignisV};
use crate::fehler::{FehlerArt, VehaFehler};
use crate::leser::{erste_meldung, lemma_erste_meldung, lesung_v, lesungen, lesungen_v, lesungen_voll, xml_lesefolge, xml_lesungen};
use crate::utils::{ist_ende, ist_ende_von, ist_start, ist_start_von};

verus! {

/// An der Stelle `j` steht ein Start-Tag mit dem lokalen Namen `tag`.
pub open spec fn start_an(tag: Seq<u8>, s: Seq<Option<XmlEreignisV>>, j: int) -> bool {
    s[j] matches Some(e) && ist_start(e, tag)
}

/// An der Stelle `k` steht ein End-Tag mit dem lokalen Namen `tag`.
pub open spec fn ende_an(tag: Seq<u8>, s: Seq<Option<XmlEreignisV>>, k: int) -> bool {
    s[k] matches Some(e) && ist_ende(e, tag)
}

/// Die Stelle `i` liegt im Tag: vor ihr begann er, und seitdem endete er nicht.
pub open spec fn im_tag(tag: Seq<u8>, s: Seq<Option<XmlEreignisV>>, i: int) -> bool {
    exists|j: int| 0 <= j < i && #[trigger] start_an(tag, s, j)
        && forall|k: int| j < k < i ==> !#[trigger] ende_an(tag, s, k)
}

/// Vor der Stelle `i` begann der Tag schon einmal.
pub open spec fn schon_begonnen(tag: Seq<u8>, s: Seq<Option<XmlEreignisV>>, i: int) -> bool {
    exists|j: int| 0 <= j < i && #[trigger] start_an(tag, s, j)
}

/// An der Stelle `i` bricht die Zerlegung ab: dort steht ein Lesefehler oder
/// ein zweiter Start des Tags.
pub open spec fn press_bruch(tag: Seq<u8>, s: Seq<Option<XmlEreignisV>>, i: int) -> bool {
    s[i] is None || (start_an(tag, s, i) && schon_begonnen(tag, s, i))
}

/// `i` ist die erste Stelle, an der die Zerlegung abbricht.
pub open spec fn erster_bruch(tag: Seq<u8>, s: Seq<Option<XmlEreignisV>>, i: int) -> bool {
    0 <= i < s.len() && press_bruch(tag, s, i) && forall|k: int| 0 <= k < i ==> !#[trigger] press_bruch(tag, s, k)
}

/// Was die Stelle `i` zum inneren (`innen`) oder zum äußeren Teil beiträgt:
/// ein Ereignis, das weder Start- noch End-Tag des Tags ist, mit seinen
/// Bytes auf der Seite, auf der es liegt.
pub open spec fn press_beitrag(tag: Seq<u8>, s: Seq<Option<XmlEreignisV>>, i: int, innen: bool) -> Seq<u8> {
    match s[i] {
        Some(e) => if !ist_start(e, tag) && !ist_ende(e, tag) && im_tag(tag, s, i) == innen {
            ereignis_bytes(e)
        } else {
            Seq::empty()
        },
        None => Seq::empty(),
    }
}

/// Der innere oder äußere Teil: die Beiträge aller Stellen hintereinander.
pub open spec fn press_teil(tag: Seq<u8>, s: Seq<Option<XmlEreignisV>>, innen: bool) -> Seq<u8> {
    Seq::new(s.len(), |i: int| press_beitrag(tag, s, i, innen)).flatten()
}

/// Die Zerlegung einer Lesungsfolge nach dem Tag: bricht sie irgendwo ab,
/// der Fehler der ersten solchen Stelle (ein Lesefehler oder ein zweiter
/// Start des Tags), sonst der äußere und der innere Teil.
pub open spec fn press_ergebnis(tag: Seq<u8>, s: Seq<Option<XmlEreignisV>>) -> Result<(Seq<u8>, Seq<u8>), FehlerArt> {
    if exists|i: int| erster_bruch(tag, s, i) {
        let i = choose|i: int| erster_bruch(tag, s, i);
        if s[i] is None {
            Err(FehlerArt::Xml)
        } else {
            Err(FehlerArt::MehrfachTag)
        }
    } else {
        Ok((press_teil(tag, s, false), press_teil(tag, s, true)))
    }
}

/// Die Beiträge der ersten `n + 1` Stellen sind die der ersten `n` und der
/// von `n`.
pub proof fn lemma_teil_weiter(tag: Seq<u8>, s: Seq<Option<XmlEreignisV>>, n: int, innen: bool)
    requires
        0 <= n < s.len(),
    ensures
        Seq::new((n + 1) as nat, |i: int| press_beitrag(tag, s, i, innen)).flatten()
            == Seq::new(n as nat, |i: int| press_beitrag(tag, s, i, innen)).flatten() + press_beitrag(tag, s, n, innen),
{
    let f = |i: int| press_beitrag(tag, s, i, innen);
    assert(Seq::new((n + 1) as nat, f) =~= Seq::new(n as nat, f).push(f(n)));
    Seq::new(n as nat, f).lemma_flatten_push(f(n));
}

/// Liegt an `i` weder Start noch Ende des Tags, liegt `i + 1` genau dann im
/// Tag, wenn `i` es tut.
proof fn lemma_im_tag_weiter(tag: Seq<u8>, s: Seq<Option<XmlEreignisV>>, i: int)
    requires
        0 <= i < s.len(),
        !start_an(tag, s, i),
        !ende_an(tag, s, i),
    ensures
        im_tag(tag, s, i + 1) == im_tag(tag, s, i),
        schon_begonnen(tag, s, i + 1) == schon_begonnen(tag, s, i),
{
    if im_tag(tag, s, i + 1) {
        let j = choose|j: int| 0 <= j < i + 1 && #[trigger] start_an(tag, s, j)
            && forall|k: int| j < k < i + 1 ==> !#[trigger] ende_an(tag, s, k);
        assert(j < i);
        assert(forall|k: int| j < k < i ==> !#[trigger] ende_an(tag, s, k));
    }
    if im_tag(tag, s, i) {
        let j = choose|j: int| 0 <= j < i && #[trigger] start_an(tag, s, j)
            && forall|k: int| j < k < i ==> !#[trigger] ende_an(tag, s, k);
        assert(forall|k: int| j < k < i + 1 ==> !#[trigger] ende_an(tag, s, k));
    }
    if schon_begonnen(tag, s, i + 1) {
        let j = choose|j: int| 0 <= j < i + 1 && #[trigger] start_an(tag, s, j);
        assert(j < i);
    }
}

/// Nach einem End-Tag liegt man nicht im Tag.
proof fn lemma_nach_ende(tag: Seq<u8>, s: Seq<Option<XmlEreignisV>>, i: int)
    requires
        0 <= i < s.len(),
        ende_an(tag, s, i),
    ensures
        !im_tag(tag, s, i + 1),
        !start_an(tag, s, i),
        schon_begonnen(tag, s, i + 1) == schon_begonnen(tag, s, i),
{
    assert forall|j: int| 0 <= j < i + 1 && #[trigger] start_an(tag, s, j)
        implies !(forall|k: int| j < k < i + 1 ==> !#[trigger] ende_an(tag, s, k)) by {
        assert(j != i);
        assert(ende_an(tag, s, i));
    }
    if schon_begonnen(tag, s, i + 1) {
        let j = choose|j: int| 0 <= j < i + 1 && #[trigger] start_an(tag, s, j);
        assert(j < i);
    }
}

/// Nach einem Start-Tag liegt man im Tag.
proof fn lemma_nach_start(tag: Seq<u8>, s: Seq<Option<XmlEreignisV>>, i: int)
    requires
        0 <= i < s.len(),
        start_an(tag, s, i),
    ensures
        im_tag(tag, s, i + 1),
        schon_begonnen(tag, s, i + 1),
{
    assert(forall|k: int| i < k < i + 1 ==> !#[trigger] ende_an(tag, s, k));
}

/// Ist `i` die erste Bruchstelle, gibt die Zerlegung deren Fehler.
proof fn lemma_bruch_ergebnis(tag: Seq<u8>, s: Seq<Option<XmlEreignisV>>, i: int)
    requires
        erster_bruch(tag, s, i),
    ensures
        press_ergebnis(tag, s) == (if s[i] is None {
            Err::<(Seq<u8>, Seq<u8>), FehlerArt>(FehlerArt::Xml)
        } else {
            Err::<(Seq<u8>, Seq<u8>), FehlerArt>(FehlerArt::MehrfachTag)
        }),
{
    let c = choose|c: int| erster_bruch(tag, s, c);
    if c < i {
        assert(!press_bruch(tag, s, c));
    }
    if i < c {
        assert(!press_bruch(tag, s, i));
    }
}

/// Zerlegt `xmleingabe` nach dem Tag `tagname` (lokaler Name): das erste
/// Ergebnis enthält die Ereignisse außerhalb, das zweite die innerhalb des
/// Tags; Start- und End-Tag selbst entfallen. Ein zweiter Start des Tags ist
/// ein Fehler.
pub fn verteilen_nach_tag(xmleingabe: &str, tagname: &str) -> (res: Result<(Vec<u8>, Vec<u8>), VehaFehler>)
    ensures
        match res {
            Ok((aussen, innen)) => press_ergebnis(tagname.spec_bytes(), xml_lesungen(xmleingabe@, false))
                == Ok::<(Seq<u8>, Seq<u8>), FehlerArt>((aussen@, innen@)),
            Err(f) => press_ergebnis(tagname.spec_bytes(), xml_lesungen(xmleingabe@, false))
                == Err::<(Seq<u8>, Seq<u8>), FehlerArt>(f.art())
                && (f.art() == FehlerArt::MehrfachTag ==> f.tag_text() == Some(tagname@))
                && (f matches VehaFehler::Xml(m) ==> m@ == erste_meldung(xml_lesefolge(xmleingabe@, false))),
        },
{
    let ls = lesungen(xmleingabe, false);
    let ghost s = lesungen_v(ls@);
    let ghost tag = tagname.spec_bytes();
    let ghost fa = |k: int| press_beitrag(tag, s, k, false);
    let ghost fi = |k: int| press_beitrag(tag, s, k, true);
    let mut aussen: Vec<u8> = Vec::new();
    let mut innen: Vec<u8> = Vec::new();
    let mut drinnen = false;
    let mut gesehen = false;
    let mut i: usize = 0;
    assert(Seq::new(0, fa).flatten() =~= Seq::<u8>::empty());
    assert(Seq::new(0, fi).flatten() =~= Seq::<u8>::empty());
    while i < ls.len()
        invariant
            s == lesungen_v(ls@),
            s == xml_lesungen(xmleingabe@, false),
            lesungen_wohlgeformt(s),
            tag == tagname.spec_bytes(),
            fa == (|k: int| press_beitrag(tag, s, k, false)),
            fi == (|k: int| press_beitrag(tag, s, k, true)),
            i <= ls@.len(),
            forall|k: int| 0 <= k < i ==> !#[trigger] press_bruch(tag, s, k),
            aussen@ == Seq::new(i as nat, fa).flatten(),
            innen@ == Seq::new(i as nat, fi).flatten(),
            drinnen == im_tag(tag, s, i as int),
            gesehen == schon_begonnen(tag, s, i as int),
            lesungen_voll(ls@) == xml_lesefolge(xmleingabe@, false),
            forall|k: int| 0 <= k < i ==> ls@[k] is Ok,
        decreases ls@.len() - i,
    {
        let ghost n = i as int;
        assert(s[n] == lesung_v(ls@[n]));
        proof {
            lemma_teil_weiter(tag, s, n, false);
            lemma_teil_weiter(tag, s, n, true);
        }
        match &ls[i] {
            Err(f) => {
                proof {
                    assert(erster_bruch(tag, s, n));
                    lemma_bruch_ergebnis(tag, s, n);
                    lemma_erste_meldung(ls@, n);
                }
                return Err(VehaFehler::Xml(f.meldung.clone()));
            },
            Ok(e) => {
                if ist_start_von(e, tagname) {
                    if gesehen {
                        proof {
                            assert(erster_bruch(tag, s, n));
                            lemma_bruch_ergebnis(tag, s, n);
                        }
                        return Err(VehaFehler::MehrfachTag(String::from_str(tagname)));
                    }
                    proof {
                        lemma_nach_start(tag, s, n);
                        assert(!press_bruch(tag, s, n));
                        assert(fa(n) =~= Seq::<u8>::empty());
                        assert(fi(n) =~= Seq::<u8>::empty());
                    }
                    drinnen = true;
                    gesehen = true;
                } else if ist_ende_von(e, tagname) {
                    proof {
                        lemma_nach_ende(tag, s, n);
                        assert(fa(n) =~= Seq::<u8>::empty());
                        assert(fi(n) =~= Seq::<u8>::empty());
                    }
                    drinnen = false;
                } else {
                    proof {
                        lemma_im_tag_weiter(tag, s, n);
                        lemma_lesung_gueltig(s, ls@, n);
                    }
                    if drinnen {
                        assert(fa(n) =~= Seq::<u8>::empty());
                        ereignis_schreiben(&mut innen, e);
                    } else {
                        assert(fi(n) =~= Seq::<u8>::empty());
                        ereignis_schreiben(&mut aussen, e);
                    }
                }
            },
        }
        i = i + 1;
    }
    proof {
        assert(Seq::new(s.len(), fa) =~= Seq::new(s.len(), |k: int| press_beitrag(tag, s, k, false)));
        assert(Seq::new(s.len(), fi) =~= Seq::new(s.len(), |k: int| press_beitrag(tag, s, k, true)));
        assert(!exists|k: int| erster_bruch(tag, s, k));
    }
    Ok((aussen, innen))
}

} // verus!

//! Der Probelauf des Spaltenmotors: `<column>`-Tags mit einem festen
//! Probedatensatz füllen.

use vstd::prelude::*;
use crate::leser::{lemma_lesung_gueltig, lesungen_wohlgeformt};
use vstd::utf8::*;
use vstd::string::StringSliceAdditionalSpecFns;
use crate::ereignis::{ereignis_bytes, ereignis_schreiben, bytes_anhaengen, Art, XmlEreignis, XmlEreignisV};
use crate::fehler::{FehlerArt, VehaFehler};
use crate::leser::{erste_meldung, lemma_erste_meldung, lesung_v, lesungen, lesungen_v, lesungen_voll, xml_lesefolge, xml_lesungen, XmlFehler};
use crate::tabular::{attributtext, attributtext_von};
use crate::tagbau::{attribute_filtern, maskiert, maskieren, start_inhalt, start_mit_attributen};
use crate::utils::{ist_ende, ist_ende_von, ist_start, ist_start_von, tag_attribute};

verus! {

/// Der Probedatensatz: `title` → `discorsi`, `author` → `Machiavelli`,
/// jede andere Spalte leer.
pub open spec fn probewert(name: Seq<u8>) -> Seq<u8> {
    if name == "title".spec_bytes() {
        "discorsi".spec_bytes()
    } else if name == "author".spec_bytes() {
        "Machiavelli".spec_bytes()
    } else {
        Seq::empty()
    }
}

/// Zustand: bisherige Ausgabe und ob gerade ein `<column>` offen ist.
pub struct ProbeZustand {
    pub ausgabe: Seq<u8>,
    pub in_spalte: bool,
}

/// Wie die Probe ein Ereignis (oder einen Lesefehler) verarbeitet.
pub open spec fn probe_schritt(z: ProbeZustand, l: Option<XmlEreignisV>) -> Result<ProbeZustand, FehlerArt> {
    match l {
        None => Err(FehlerArt::Xml),
        Some(e) => if ist_start(e, "column".spec_bytes()) {
            let z1 = ProbeZustand { ausgabe: z.ausgabe, in_spalte: true };
            match attributtext(e, "content".spec_bytes()) {
                Err(()) => Err(FehlerArt::Attribut),
                Ok(None) => Ok(z1),
                Ok(Some(wert)) => match attributtext(e, "tag".spec_bytes()) {
                    Err(()) => Err(FehlerArt::Attribut),
                    Ok(None) => Ok(z1),
                    Ok(Some(tag)) => match attribute_filtern(tag_attribute(e), seq!["content".spec_bytes()], true) {
                        Err(()) => Err(FehlerArt::Attribut),
                        Ok(attrs) => Ok(ProbeZustand {
                            ausgabe: z.ausgabe
                                + ereignis_bytes(XmlEreignisV { art: Art::Start, inhalt: start_inhalt(tag, attrs) })
                                + maskiert(probewert(wert))
                                + ereignis_bytes(XmlEreignisV { art: Art::Ende, inhalt: tag }),
                            in_spalte: true,
                        }),
                    },
                },
            }
        } else if ist_ende(e, "column".spec_bytes()) && z.in_spalte {
            Ok(ProbeZustand { ausgabe: z.ausgabe, in_spalte: false })
        } else {
            Ok(ProbeZustand { ausgabe: z.ausgabe + ereignis_bytes(e), in_spalte: z.in_spalte })
        },
    }
}

/// Die Probe über alle Lesungen, Ereignis für Ereignis; der erste Fehler bricht ab.
pub open spec fn probe_lauf(s: Seq<Option<XmlEreignisV>>) -> Result<ProbeZustand, FehlerArt>
    decreases s.len(),
{
    if s.len() == 0 {
        Ok(ProbeZustand { ausgabe: Seq::empty(), in_spalte: false })
    } else {
        match probe_lauf(s.drop_last()) {
            Ok(z) => probe_schritt(z, s.last()),
            Err(f) => Err(f),
        }
    }
}

fn probewert_von(wert: &[u8]) -> (res: &'static str)
    ensures
        res.spec_bytes() == probewert(wert@),
{
    if crate::utils::bytes_gleich(wert, "title".as_bytes()) {
        "discorsi"
    } else if crate::utils::bytes_gleich(wert, "author".as_bytes()) {
        "Machiavelli"
    } else {
        let leer = "";
        proof {
            reveal_strlit("");
        }
        assert(leer.spec_bytes() =~= Seq::<u8>::empty()) by {
            assert(leer@ =~= Seq::<char>::empty());
        }
        leer
    }
}

fn probe_schritt_aus(ausgabe: &mut Vec<u8>, in_spalte: &mut bool, l: &Result<XmlEreignis, XmlFehler>)
    -> (res: Result<(), VehaFehler>)
    requires
        match l { Ok(e) => vstd::utf8::valid_utf8(e.inhalt@), Err(_) => true },
    ensures
        match res {
            Ok(()) => probe_schritt(ProbeZustand { ausgabe: old(ausgabe)@, in_spalte: *old(in_spalte) }, lesung_v(*l))
                == Ok::<ProbeZustand, FehlerArt>(ProbeZustand { ausgabe: final(ausgabe)@, in_spalte: *final(in_spalte) }),
            Err(f) => probe_schritt(ProbeZustand { ausgabe: old(ausgabe)@, in_spalte: *old(in_spalte) }, lesung_v(*l))
                == Err::<ProbeZustand, FehlerArt>(f.art())
                && (f matches VehaFehler::Xml(m) ==> *l matches Err(g) && m@ == g.meldung@),
        },
{
    let e = match l {
        Err(f) => {
            return Err(VehaFehler::Xml(f.meldung.clone()));
        },
        Ok(e) => e,
    };
    if ist_start_von(e, "column") {
        let wert = match attributtext_von(e, "content")? {
            None => {
                *in_spalte = true;
                return Ok(());
            },
            Some(w) => w,
        };
        let tag = match attributtext_von(e, "tag")? {
            None => {
                *in_spalte = true;
                return Ok(());
            },
            Some(t) => t,
        };
        let namen = vec!["content"];
        assert(namen@.map_values(|n: &str| n.spec_bytes()) =~= seq!["content".spec_bytes()]);
        let inhalt = match start_mit_attributen(tag.as_slice(), e, &namen, true) {
            Ok(i) => i,
            Err(_) => {
                return Err(VehaFehler::Attribut);
            },
        };
        *in_spalte = true;
        let s = XmlEreignis { art: Art::Start, inhalt };
        ereignis_schreiben(ausgabe, &s);
        let m = maskieren(probewert_von(wert.as_slice()));
        bytes_anhaengen(ausgabe, m.as_slice());
        let ende = XmlEreignis { art: Art::Ende, inhalt: tag };
        ereignis_schreiben(ausgabe, &ende);
        Ok(())
    } else if ist_ende_von(e, "column") && *in_spalte {
        *in_spalte = false;
        Ok(())
    } else {
        ereignis_schreiben(ausgabe, e);
        Ok(())
    }
}

/// Ersetzt jedes `<column content=".." tag="..">` durch einen Tag `tag` mit
/// den `content`-Attributen und dem Probewert der Spalte als Text (dazu
/// sofort das End-Tag); das `</column>` eines offenen `<column>` entfällt;
/// alle anderen Ereignisse bleiben.
pub fn werte_ersetzen(eingabe: String) -> (res: Result<Vec<u8>, VehaFehler>)
    ensures
        match res {
            Ok(a) => probe_lauf(xml_lesungen(eingabe@, false)) matches Ok(z) && a@ == z.ausgabe,
            Err(f) => probe_lauf(xml_lesungen(eingabe@, false)) == Err::<ProbeZustand, FehlerArt>(f.art())
                && (f matches VehaFehler::Xml(m) ==> m@ == erste_meldung(xml_lesefolge(eingabe@, false))),
        },
{
    let ls = lesungen(eingabe.as_str(), false);
    let ghost s = lesungen_v(ls@);
    let mut ausgabe: Vec<u8> = Vec::new();
    let mut in_spalte = false;
    let mut i: usize = 0;
    assert(s.take(0) =~= Seq::<Option<XmlEreignisV>>::empty());
    while i < ls.len()
        invariant
            s == lesungen_v(ls@),
            s == xml_lesungen(eingabe@, false),
            lesungen_wohlgeformt(s),
            i <= ls@.len(),
            probe_lauf(s.take(i as int)) == Ok::<ProbeZustand, FehlerArt>(
                ProbeZustand { ausgabe: ausgabe@, in_spalte }),
            lesungen_voll(ls@) == xml_lesefolge(eingabe@, false),
            forall|k: int| 0 <= k < i ==> ls@[k] is Ok,
        decreases ls@.len() - i,
    {
        assert(s.take(i + 1).drop_last() =~= s.take(i as int));
        assert(s.take(i + 1).last() == lesung_v(ls@[i as int]));
        proof { lemma_lesung_gueltig(s, ls@, i as int); }
        match probe_schritt_aus(&mut ausgabe, &mut in_spalte, &ls[i]) {
            Ok(()) => {
                assert(ls@[i as int] is Ok);
            },
            Err(f) => {
                proof {
                    lemma_probe_fehler_bleibt(s, i as int + 1);
                    if f is Xml {
                        lemma_erste_meldung(ls@, i as int);
                    }
                }
                return Err(f);
            },
        }
        i = i + 1;
    }
    assert(s.take(i as int) =~= s);
    Ok(ausgabe)
}

/// Ist die Probe nach `n` Lesungen gescheitert, bleibt es bei diesem Fehler.
pub proof fn lemma_probe_fehler_bleibt(s: Seq<Option<XmlEreignisV>>, n: int)
    requires
        0 <= n <= s.len(),
        probe_lauf(s.take(n)) is Err,
    ensures
        probe_lauf(s) == probe_lauf(s.take(n)),
    decreases s.len() - n,
{
    if n < s.len() {
        assert(s.take(n + 1).drop_last() =~= s.take(n));
        lemma_probe_fehler_bleibt(s, n + 1);
    } else {
        assert(s.take(n) =~= s);
    }
}

} // verus!

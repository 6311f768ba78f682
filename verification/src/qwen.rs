//! Der Vorlagenmotor: jedes `<template src="..">` (oder `<vorlage src="..">`)
//! durch seine Vorlagendatei ersetzen, deren `<slot>` den Inhalt zwischen dem
//! Tag und seinem End-Tag aufnimmt.

use vstd::prelude::*;
use crate::leser::{lemma_lesung_gueltig, lesungen_wohlgeformt};
use vstd::utf8::*;
use vstd::string::{StringExecFns, StringSliceAdditionalSpecFns};
use crate::ereignis::{ereignis_bytes, ereignis_schreiben, Art, XmlEreignis, XmlEreignisV};
use crate::fehler::{FehlerArt, VehaFehler};
use crate::leser::{lesung_v, lesungen, lesungen_v, lesungen_voll, meldet, str_aus_utf8, xml_lesefolge, xml_lesungen, XmlFehler};
use crate::tabular::{attributtext, attributtext_von};
use crate::utils::{bytes_gleich, ereignis_name, ereignis_name_von, ist_start, ist_start_von};

verus! {

/// Was ein `<slot>` aufnimmt: die Ereignisse ab Position `j` bis zum ersten
/// End-Tag mit dem Namen `name` (ausschließlich). Ein Lesefehler davor ist
/// ein Fehler, ebenso das Ende des Dokuments.
pub open spec fn slot_kopie(m: Seq<Option<XmlEreignisV>>, j: int, name: Seq<u8>) -> Result<Seq<u8>, FehlerArt>
    decreases m.len() - j,
{
    if j < 0 || j >= m.len() {
        Err(FehlerArt::VorzeitigesEnde)
    } else {
        match m[j] {
            None => Err(FehlerArt::Xml),
            Some(e) => if e.art == Art::Ende && e.inhalt == name {
                Ok(Seq::empty())
            } else {
                match slot_kopie(m, j + 1, name) {
                    Ok(r) => Ok(ereignis_bytes(e) + r),
                    Err(f) => Err(f),
                }
            },
        }
    }
}

/// Eine Vorlage ausfüllen: jedes `<slot>` (qualifizierter Name) bekommt den
/// Slot-Inhalt, `</slot>` entfällt, alles andere bleibt.
pub open spec fn vorlage_lauf(t: Seq<Option<XmlEreignisV>>, slot: Result<Seq<u8>, FehlerArt>) -> Result<Seq<u8>, FehlerArt>
    decreases t.len(),
{
    if t.len() == 0 {
        Ok(Seq::empty())
    } else {
        match vorlage_lauf(t.drop_last(), slot) {
            Err(f) => Err(f),
            Ok(a) => match t.last() {
                None => Err(FehlerArt::Xml),
                Some(e) => if e.art == Art::Start && ereignis_name(e) == "slot".spec_bytes() {
                    match slot {
                        Ok(b) => Ok(a + b),
                        Err(f) => Err(f),
                    }
                } else if e.art == Art::Ende && e.inhalt == "slot".spec_bytes() {
                    Ok(a)
                } else {
                    Ok(a + ereignis_bytes(e))
                },
            },
        }
    }
}

/// Ein Tag, der eine Vorlage einbindet: `<template src="..">` oder
/// `<vorlage src="..">`.
pub open spec fn ist_vorlagen_tag(e: XmlEreignisV) -> bool {
    ist_start(e, "template".spec_bytes()) || ist_start(e, "vorlage".spec_bytes())
}

fn ist_vorlagen_tag_von(e: &XmlEreignis) -> (res: bool)
    ensures
        res == ist_vorlagen_tag(e@),
{
    ist_start_von(e, "template") || ist_start_von(e, "vorlage")
}

/// Der Zustand des Vorlagenmotors: die Ausgabe und wie viele Vorlagen schon
/// verbraucht sind.
pub struct VorlagenZustand {
    pub ausgabe: Seq<u8>,
    pub verbraucht: nat,
}

/// Wie das Einsetzen der Vorlagen ein Ereignis (oder einen Lesefehler) verarbeitet.
pub open spec fn vorlagen_schritt(
    m: Seq<Option<XmlEreignisV>>,
    vorlagen: Seq<Option<Seq<char>>>,
    i: int,
    z: VorlagenZustand,
) -> Result<VorlagenZustand, FehlerArt> {
    match m[i] {
        None => Ok(z),
        Some(e) => if ist_vorlagen_tag(e) {
            match attributtext(e, "src".spec_bytes()) {
                Err(()) => Err(FehlerArt::Attribut),
                Ok(None) => Ok(z),
                Ok(Some(_)) => if z.verbraucht >= vorlagen.len() {
                    Err(FehlerArt::FehlendeAntwort)
                } else {
                    match vorlagen[z.verbraucht as int] {
                        None => Ok(VorlagenZustand { verbraucht: z.verbraucht + 1, ..z }),
                        Some(text) => match vorlage_lauf(
                            xml_lesungen(text, true),
                            slot_kopie(m, i + 1, ereignis_name(e)),
                        ) {
                            Ok(b) => Ok(VorlagenZustand { ausgabe: z.ausgabe + b, verbraucht: z.verbraucht + 1 }),
                            Err(f) => Err(f),
                        },
                    }
                },
            }
        } else {
            Ok(z)
        },
    }
}

/// Der Vorlagenmotor über die ersten `n` Lesungen.
pub open spec fn vorlagen_lauf(
    m: Seq<Option<XmlEreignisV>>,
    vorlagen: Seq<Option<Seq<char>>>,
    n: int,
) -> Result<VorlagenZustand, FehlerArt>
    decreases n,
{
    if n <= 0 {
        Ok(VorlagenZustand { ausgabe: Seq::empty(), verbraucht: 0 })
    } else {
        match vorlagen_lauf(m, vorlagen, n - 1) {
            Err(f) => Err(f),
            Ok(z) => vorlagen_schritt(m, vorlagen, n - 1, z),
        }
    }
}

/// Ist das Einsetzen nach `n` Lesungen gescheitert, bleibt es bei diesem Fehler.
pub proof fn lemma_vorlagen_fehler_bleibt(m: Seq<Option<XmlEreignisV>>, vorlagen: Seq<Option<Seq<char>>>, n: int)
    requires
        0 <= n <= m.len(),
        vorlagen_lauf(m, vorlagen, n) is Err,
    ensures
        vorlagen_lauf(m, vorlagen, m.len() as int) == vorlagen_lauf(m, vorlagen, n),
    decreases m.len() - n,
{
    if n < m.len() {
        lemma_vorlagen_fehler_bleibt(m, vorlagen, n + 1);
    }
}

/// Die Vorlagennamen (`src`) der `<vorlage>`-Tags, in ihrer Reihenfolge, bis
/// zum ersten Tag, dessen Attribute sich nicht lesen lassen.
pub open spec fn vorlagen_namen_lauf(m: Seq<Option<XmlEreignisV>>, n: int) -> (Seq<Seq<u8>>, bool)
    decreases n,
{
    if n <= 0 {
        (Seq::empty(), false)
    } else {
        let (namen, abbruch) = vorlagen_namen_lauf(m, n - 1);
        if abbruch {
            (namen, true)
        } else {
            match m[n - 1] {
                Some(e) => if ist_vorlagen_tag(e) {
                    match attributtext(e, "src".spec_bytes()) {
                        Err(()) => (namen, true),
                        Ok(None) => (namen, false),
                        Ok(Some(src)) => (namen.push(src), false),
                    }
                } else {
                    (namen, false)
                },
                None => (namen, false),
            }
        }
    }
}

/// `m` ist die Meldung eines Lesefehlers der Vorlage, wenn es eine gibt.
pub open spec fn vorlage_meldet(v: Option<String>, m: Seq<char>) -> bool {
    match v {
        Some(t) => meldet(xml_lesefolge(t@, true), m),
        None => false,
    }
}

/// Kopiert den Slot-Inhalt ab Position `j` in die Ausgabe.
fn slot_kopieren(ls: &Vec<Result<XmlEreignis, XmlFehler>>, j: usize, name: &[u8], aus: &mut Vec<u8>)
    -> (res: Result<(), VehaFehler>)
    requires
        lesungen_wohlgeformt(lesungen_v(ls@)),
    ensures
        match res {
            Ok(()) => slot_kopie(lesungen_v(ls@), j as int, name@) matches Ok(b) && final(aus)@ == old(aus)@ + b,
            Err(f) => slot_kopie(lesungen_v(ls@), j as int, name@) == Err::<Seq<u8>, FehlerArt>(f.art())
                && (f matches VehaFehler::Xml(m) ==> meldet(lesungen_voll(ls@), m@)),
        },
{
    let ghost m = lesungen_v(ls@);
    let ghost anfang = old(aus)@;
    let mut k = j;
    loop
        invariant
            m == lesungen_v(ls@),
            lesungen_wohlgeformt(m),
            anfang == old(aus)@,
            j <= k,
            anfang.len() <= aus@.len(),
            slot_kopie(m, j as int, name@) == match slot_kopie(m, k as int, name@) {
                Ok(r) => Ok::<Seq<u8>, FehlerArt>(aus@.subrange(anfang.len() as int, aus@.len() as int) + r),
                Err(f) => Err(f),
            },
            aus@.subrange(0, anfang.len() as int) == anfang,
        decreases ls@.len() - k,
    {
        if k >= ls.len() {
            return Err(VehaFehler::VorzeitigesEnde);
        }
        assert(m[k as int] == lesung_v(ls@[k as int]));
        match &ls[k] {
            Err(f) => {
                assert(lesungen_voll(ls@)[k as int] == Err::<XmlEreignisV, Seq<char>>(f.meldung@));
                return Err(VehaFehler::Xml(f.meldung.clone()));
            },
            Ok(e) => {
                if e.art == Art::Ende && bytes_gleich(e.inhalt.as_slice(), name) {
                    assert(slot_kopie(m, k as int, name@) == Ok::<Seq<u8>, FehlerArt>(Seq::empty()));
                    assert(aus@ =~= anfang + aus@.subrange(anfang.len() as int, aus@.len() as int));
                    assert(aus@.subrange(anfang.len() as int, aus@.len() as int) + Seq::<u8>::empty()
                        =~= aus@.subrange(anfang.len() as int, aus@.len() as int));
                    assert(slot_kopie(m, j as int, name@) == Ok::<Seq<u8>, FehlerArt>(
                        aus@.subrange(anfang.len() as int, aus@.len() as int)));
                    assert(anfang == old(aus)@);
                    return Ok(());
                }
                let ghost vor = aus@;
                proof { lemma_lesung_gueltig(lesungen_v(ls@), ls@, k as int); }
                ereignis_schreiben(aus, e);
                assert(aus@.subrange(anfang.len() as int, aus@.len() as int)
                    =~= vor.subrange(anfang.len() as int, vor.len() as int) + ereignis_bytes(e@));
                assert(aus@.subrange(0, anfang.len() as int) =~= vor.subrange(0, anfang.len() as int));
                proof {
                    let alt_teil = vor.subrange(anfang.len() as int, vor.len() as int);
                    let neu_teil = aus@.subrange(anfang.len() as int, aus@.len() as int);
                    match slot_kopie(m, k + 1, name@) {
                        Ok(r) => {
                            assert(slot_kopie(m, k as int, name@) == Ok::<Seq<u8>, FehlerArt>(ereignis_bytes(e@) + r));
                            assert(alt_teil + (ereignis_bytes(e@) + r) =~= neu_teil + r);
                        },
                        Err(f) => {
                            assert(slot_kopie(m, k as int, name@) == Err::<Seq<u8>, FehlerArt>(f));
                        },
                    }
                }
                k = k + 1;
            },
        }
    }
}

/// Füllt eine Vorlage aus; ihre `<slot>`s bekommen den Inhalt ab Position `j`
/// bis zum End-Tag `name`.
fn vorlage_fuellen(text: &str, ls: &Vec<Result<XmlEreignis, XmlFehler>>, j: usize, name: &[u8], aus: &mut Vec<u8>)
    -> (res: Result<(), VehaFehler>)
    requires
        lesungen_wohlgeformt(lesungen_v(ls@)),
    ensures
        match res {
            Ok(()) => vorlage_lauf(xml_lesungen(text@, true), slot_kopie(lesungen_v(ls@), j as int, name@)) matches Ok(b)
                && final(aus)@ == old(aus)@ + b,
            Err(f) => vorlage_lauf(xml_lesungen(text@, true), slot_kopie(lesungen_v(ls@), j as int, name@))
                == Err::<Seq<u8>, FehlerArt>(f.art())
                && (f matches VehaFehler::Xml(m) ==> meldet(lesungen_voll(ls@), m@) || meldet(xml_lesefolge(text@, true), m@)),
        },
{
    let t = lesungen(text, true);
    let ghost tv = lesungen_v(t@);
    let ghost slot = slot_kopie(lesungen_v(ls@), j as int, name@);
    let ghost anfang = old(aus)@;
    let mut i: usize = 0;
    assert(tv.take(0) =~= Seq::<Option<XmlEreignisV>>::empty());
    assert(aus@.subrange(anfang.len() as int, aus@.len() as int) =~= Seq::<u8>::empty());
    while i < t.len()
        invariant
            tv == lesungen_v(t@),
            tv == xml_lesungen(text@, true),
            lesungen_voll(t@) == xml_lesefolge(text@, true),
            lesungen_wohlgeformt(tv),
            lesungen_wohlgeformt(lesungen_v(ls@)),
            anfang == old(aus)@,
            slot == slot_kopie(lesungen_v(ls@), j as int, name@),
            i <= t@.len(),
            anfang.len() <= aus@.len(),
            aus@.subrange(0, anfang.len() as int) == anfang,
            vorlage_lauf(tv.take(i as int), slot)
                == Ok::<Seq<u8>, FehlerArt>(aus@.subrange(anfang.len() as int, aus@.len() as int)),
        decreases t@.len() - i,
    {
        assert(tv.take(i + 1).drop_last() =~= tv.take(i as int));
        assert(tv.take(i + 1).last() == lesung_v(t@[i as int]));
        let ghost vor = aus@;
        match &t[i] {
            Err(f) => {
                proof { lemma_vorlage_fehler_bleibt(tv, slot, i as int + 1); }
                assert(lesungen_voll(t@)[i as int] == Err::<XmlEreignisV, Seq<char>>(f.meldung@));
                return Err(VehaFehler::Xml(f.meldung.clone()));
            },
            Ok(e) => {
                if e.art == Art::Start && bytes_gleich(ereignis_name_von(e).as_slice(), "slot".as_bytes()) {
                    match slot_kopieren(ls, j, name, aus) {
                        Ok(()) => {
                            assert(vorlage_lauf(tv.take(i + 1), slot) == Ok::<Seq<u8>, FehlerArt>(
                                vor.subrange(anfang.len() as int, vor.len() as int) + slot.unwrap()));
                            assert(aus@.subrange(vor.len() as int, aus@.len() as int) =~= slot.unwrap());
                        },
                        Err(f) => {
                            proof { lemma_vorlage_fehler_bleibt(tv, slot, i as int + 1); }
                            return Err(f);
                        },
                    }
                } else if e.art == Art::Ende && bytes_gleich(e.inhalt.as_slice(), "slot".as_bytes()) {
                    assert(aus@.subrange(vor.len() as int, aus@.len() as int) =~= Seq::<u8>::empty());
                } else {
                    ereignis_schreiben(aus, e);
                    assert(aus@.subrange(vor.len() as int, aus@.len() as int) =~= ereignis_bytes(e@));
                }
                assert(aus@.subrange(0, anfang.len() as int) =~= vor.subrange(0, anfang.len() as int));
                assert(aus@.subrange(anfang.len() as int, aus@.len() as int)
                    =~= vor.subrange(anfang.len() as int, vor.len() as int)
                    + aus@.subrange(vor.len() as int, aus@.len() as int));
            },
        }
        i = i + 1;
    }
    assert(tv.take(i as int) =~= tv);
    assert(aus@ =~= anfang + aus@.subrange(anfang.len() as int, aus@.len() as int));
    Ok(())
}

/// Ist das Füllen einer Vorlage nach `n` Lesungen gescheitert, bleibt es bei diesem Fehler.
pub proof fn lemma_vorlage_fehler_bleibt(t: Seq<Option<XmlEreignisV>>, slot: Result<Seq<u8>, FehlerArt>, n: int)
    requires
        0 <= n <= t.len(),
        vorlage_lauf(t.take(n), slot) is Err,
    ensures
        vorlage_lauf(t, slot) == vorlage_lauf(t.take(n), slot),
    decreases t.len() - n,
{
    if n < t.len() {
        assert(t.take(n + 1).drop_last() =~= t.take(n));
        lemma_vorlage_fehler_bleibt(t, slot, n + 1);
    } else {
        assert(t.take(n) =~= t);
    }
}

/// Die Namen der Vorlagendateien, die [`transform`] braucht: die
/// `src`-Werte der `<template>`- und `<vorlage>`-Tags in ihrer Reihenfolge (bis zum ersten Tag
/// mit unlesbaren Attributen).
pub fn vorlagen_namen(eingabe: &str) -> (res: Vec<String>)
    ensures
        res@.map_values(|n: String| encode_utf8(n@)) == vorlagen_namen_lauf(
            xml_lesungen(eingabe@, true), xml_lesungen(eingabe@, true).len() as int).0,
{
    let ls = lesungen(eingabe, true);
    let ghost m = lesungen_v(ls@);
    let mut res: Vec<String> = Vec::new();
    let mut i: usize = 0;
    while i < ls.len()
        invariant
            m == lesungen_v(ls@),
            m == xml_lesungen(eingabe@, true),
            lesungen_wohlgeformt(m),
            i <= ls@.len(),
            vorlagen_namen_lauf(m, i as int)
                == (res@.map_values(|n: String| encode_utf8(n@)), false),
        decreases ls@.len() - i,
    {
        assert(m[i as int] == lesung_v(ls@[i as int]));
        match &ls[i] {
            Err(_) => {},
            Ok(e) => {
                if ist_vorlagen_tag_von(e) {
                    match attributtext_von(e, "src") {
                        Err(_) => {
                            proof {
                                lemma_namen_abbruch_bleibt(m, i as int + 1);
                            }
                            return res;
                        },
                        Ok(None) => {},
                        Ok(Some(src)) => {
                            let s = str_aus_utf8(src.as_slice()).unwrap();
                            proof {
                                decode_utf8_encode_utf8(src@);
                            }
                            let ghost alt = res@;
                            res.push(String::from_str(s));
                            assert(res@.map_values(|n: String| encode_utf8(n@))
                                =~= alt.map_values(|n: String| encode_utf8(n@)).push(src@));
                        },
                    }
                }
            },
        }
        i = i + 1;
    }
    res
}

/// Ist das Sammeln der Namen nach `n` Lesungen abgebrochen, bleibt das Ergebnis.
pub proof fn lemma_namen_abbruch_bleibt(m: Seq<Option<XmlEreignisV>>, n: int)
    requires
        0 <= n <= m.len(),
        vorlagen_namen_lauf(m, n).1,
    ensures
        vorlagen_namen_lauf(m, m.len() as int).0 == vorlagen_namen_lauf(m, n).0,
    decreases m.len() - n,
{
    if n < m.len() {
        lemma_namen_abbruch_bleibt(m, n + 1);
    }
}

/// Ersetzt jedes `<template src="..">` und `<vorlage src="..">` durch den
/// Inhalt seiner Vorlage: der
/// `k`-te solche Tag bekommt `vorlagen[k]` (`None`: die Vorlagendatei fehlt,
/// der Tag entfällt). Jedes `<slot>` der Vorlage nimmt auf, was zwischen dem
/// Tag und seinem End-Tag steht. Alles außerhalb der Vorlagen
/// entfällt; das Dokument und die Vorlagen werden mit gekürztem Text gelesen.
pub fn transform(eingabe: String, vorlagen: Vec<Option<String>>) -> (res: Result<Vec<u8>, VehaFehler>)
    ensures
        match res {
            Ok(a) => vorlagen_lauf(xml_lesungen(eingabe@, true),
                vorlagen@.map_values(|v: Option<String>| match v { Some(s) => Some(s@), None => None }),
                xml_lesungen(eingabe@, true).len() as int) matches Ok(z) && a@ == z.ausgabe,
            Err(f) => vorlagen_lauf(xml_lesungen(eingabe@, true),
                vorlagen@.map_values(|v: Option<String>| match v { Some(s) => Some(s@), None => None }),
                xml_lesungen(eingabe@, true).len() as int) == Err::<VorlagenZustand, FehlerArt>(f.art())
                && (f matches VehaFehler::Xml(m) ==> meldet(xml_lesefolge(eingabe@, true), m@)
                    || exists|k: int| 0 <= k < vorlagen.len() && #[trigger] vorlage_meldet(vorlagen@[k], m@)),
        },
{
    let ls = lesungen(eingabe.as_str(), true);
    let ghost m = lesungen_v(ls@);
    let ghost vv = vorlagen@.map_values(|v: Option<String>| match v { Some(s) => Some(s@), None => None });
    let mut aus: Vec<u8> = Vec::new();
    let mut verbraucht: usize = 0;
    let mut i: usize = 0;
    while i < ls.len()
        invariant
            m == lesungen_v(ls@),
            m == xml_lesungen(eingabe@, true),
            lesungen_voll(ls@) == xml_lesefolge(eingabe@, true),
            lesungen_wohlgeformt(m),
            vv == vorlagen@.map_values(|v: Option<String>| match v { Some(s) => Some(s@), None => None }),
            i <= ls@.len(),
            vorlagen_lauf(m, vv, i as int) == Ok::<VorlagenZustand, FehlerArt>(
                VorlagenZustand { ausgabe: aus@, verbraucht: verbraucht as nat }),
        decreases ls@.len() - i,
    {
        assert(m[i as int] == lesung_v(ls@[i as int]));
        match &ls[i] {
            Err(_) => {},
            Ok(e) => {
                if ist_vorlagen_tag_von(e) {
                    match attributtext_von(e, "src") {
                        Err(f) => {
                            proof { lemma_vorlagen_fehler_bleibt(m, vv, i as int + 1); }
                            return Err(f);
                        },
                        Ok(None) => {},
                        Ok(Some(_)) => {
                            if verbraucht >= vorlagen.len() {
                                proof { lemma_vorlagen_fehler_bleibt(m, vv, i as int + 1); }
                                return Err(VehaFehler::FehlendeAntwort);
                            }
                            match &vorlagen[verbraucht] {
                                None => {},
                                Some(text) => {
                                    let name = ereignis_name_von(e);
                                    match vorlage_fuellen(text.as_str(), &ls, i + 1, name.as_slice(), &mut aus) {
                                        Ok(()) => {},
                                        Err(f) => {
                                            proof {
                                                lemma_vorlagen_fehler_bleibt(m, vv, i as int + 1);
                                                if let VehaFehler::Xml(mm) = &f {
                                                    if !meldet(xml_lesefolge(eingabe@, true), mm@) {
                                                        assert(vorlage_meldet(vorlagen@[verbraucht as int], mm@));
                                                    }
                                                }
                                            }
                                            return Err(f);
                                        },
                                    }
                                },
                            }
                            verbraucht = verbraucht + 1;
                        },
                    }
                }
            },
        }
        i = i + 1;
    }
    Ok(aus)
}

} // verus!

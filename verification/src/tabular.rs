//! Spalten einfüllen: `<column>`-Tags einer Zeilenvorlage durch die Werte
//! eines Datensatzes ersetzen.

use vstd::prelude::*;
use crate::leser::{lemma_lesung_gueltig, lesungen_wohlgeformt};
use vstd::utf8::*;
use vstd::string::StringSliceAdditionalSpecFns;
use crate::ereignis::{ereignis_bytes, ereignis_schreiben, bytes_anhaengen, Art, XmlEreignis, XmlEreignisV};
use crate::fehler::{FehlerArt, VehaFehler};
use crate::leser::{erste_meldung, lemma_erste_meldung, lesungen, lesungen_v, lesungen_voll, xml_lesefolge, xml_lesungen, XmlFehler};
use crate::tagbau::{attribut_bytes, attribute_filtern, maskiert, maskieren, start_inhalt, start_mit_attributen};
use crate::utils::{attributwert, attributwert_bytes, ist_ende, ist_ende_von, ist_start, ist_start_von, tag_attribute};

verus! {

/// Ein Datensatz: Spaltenname und Wert, in der Reihenfolge der Spalten.
/// Kommt ein Name mehrmals vor, gilt der letzte Wert (wie beim Einfügen in
/// eine Hash-Tabelle).
#[derive(Debug)]
pub struct Datensatz {
    pub felder: Vec<(String, String)>,
}

impl View for Datensatz {
    type V = Seq<(Seq<char>, Seq<char>)>;

    open spec fn view(&self) -> Seq<(Seq<char>, Seq<char>)> {
        self.felder@.map_values(|p: (String, String)| (p.0@, p.1@))
    }
}

/// Der Wert zu einem Spaltennamen: der zuletzt eingetragene.
pub open spec fn nachschlagen(felder: Seq<(Seq<char>, Seq<char>)>, name: Seq<char>) -> Option<Seq<char>>
    decreases felder.len(),
{
    if felder.len() == 0 {
        None
    } else if felder.last().0 == name {
        Some(felder.last().1)
    } else {
        nachschlagen(felder.drop_last(), name)
    }
}

/// Der Wert zu einem Spaltennamen, leer wenn der Name fehlt.
pub open spec fn wert_oder_leer(felder: Seq<(Seq<char>, Seq<char>)>, name: Seq<char>) -> Seq<char> {
    match nachschlagen(felder, name) {
        Some(w) => w,
        None => Seq::empty(),
    }
}

impl Datensatz {
    /// Der Wert zu einem Spaltennamen, `None` wenn der Name fehlt.
    pub fn get(&self, name: &str) -> (res: Option<&String>)
        ensures
            match res {
                Some(w) => nachschlagen(self@, name@) == Some(w@),
                None => nachschlagen(self@, name@) is None,
            },
    {
        let mut i = self.felder.len();
        assert(self@.subrange(0, i as int) =~= self@);
        while i > 0
            invariant
                i <= self.felder@.len(),
                nachschlagen(self@, name@) == nachschlagen(self@.subrange(0, i as int), name@),
            decreases i,
        {
            let ghost teil = self@.subrange(0, i as int);
            assert(teil.drop_last() =~= self@.subrange(0, i - 1));
            let k = &self.felder[i - 1].0;
            if crate::utils::bytes_gleich(k.as_str().as_bytes(), name.as_bytes()) {
                proof {
                    crate::utils::lemma_kodierung_injektiv(k@, name@);
                }
                return Some(&self.felder[i - 1].1);
            }
            i = i - 1;
        }
        None
    }
}

/// Der Wert eines Attributs, der als Text gelesen wird: ein Fehler, wenn er
/// nicht lesbar oder kein UTF-8 ist.
pub open spec fn attributtext(e: XmlEreignisV, name: Seq<u8>) -> Result<Option<Seq<u8>>, ()> {
    match attributwert(e, name) {
        Ok(Some(w)) => if valid_utf8(w) { Ok(Some(w)) } else { Err(()) },
        x => x,
    }
}

pub fn attributtext_von(e: &XmlEreignis, name: &str) -> (res: Result<Option<Vec<u8>>, VehaFehler>)
    ensures
        match res {
            Ok(Some(w)) => attributtext(e@, name.spec_bytes()) == Ok::<Option<Seq<u8>>, ()>(Some(w@)),
            Ok(None) => attributtext(e@, name.spec_bytes()) == Ok::<Option<Seq<u8>>, ()>(None),
            Err(f) => attributtext(e@, name.spec_bytes()) is Err && f == VehaFehler::Attribut,
        },
{
    match attributwert_bytes(e, name) {
        Err(_) => Err(VehaFehler::Attribut),
        Ok(None) => Ok(None),
        Ok(Some(w)) => match crate::leser::str_aus_utf8(w.as_slice()) {
            Some(_) => Ok(Some(w)),
            None => Err(VehaFehler::Attribut),
        },
    }
}

/// Der Zustand beim Einfüllen: die bisherige Ausgabe und die Namen der
/// offenen ersetzten Tags.
pub struct SpaltenZustand {
    pub ausgabe: Seq<u8>,
    pub offen: Seq<Seq<u8>>,
}

/// Ein Schritt des Einfüllens für eine Lesung.
pub open spec fn spalten_schritt(
    felder: Seq<(Seq<char>, Seq<char>)>,
    z: SpaltenZustand,
    l: Option<XmlEreignisV>,
) -> Result<SpaltenZustand, FehlerArt> {
    match l {
        None => Err(FehlerArt::Xml),
        Some(e) => if ist_start(e, "column".spec_bytes()) {
            match attributtext(e, "content".spec_bytes()) {
                Err(()) => Err(FehlerArt::Attribut),
                Ok(None) => Ok(z),
                Ok(Some(wert)) => match attributtext(e, "tag".spec_bytes()) {
                    Err(()) => Err(FehlerArt::Attribut),
                    Ok(None) => Ok(z),
                    Ok(Some(tag)) => {
                        let w = encode_utf8(wert_oder_leer(felder, decode_utf8(wert)));
                        match attributtext(e, "attribute".spec_bytes()) {
                            Err(()) => Err(FehlerArt::Attribut),
                            Ok(Some(attribut)) => match attribute_filtern(
                                tag_attribute(e),
                                seq!["content".spec_bytes(), "tag".spec_bytes(), "attribute".spec_bytes()],
                                false,
                            ) {
                                Err(()) => Err(FehlerArt::Attribut),
                                Ok(attrs) => Ok(SpaltenZustand {
                                    ausgabe: z.ausgabe + ereignis_bytes(XmlEreignisV {
                                        art: Art::Start,
                                        inhalt: start_inhalt(tag, attrs.push((attribut, w))),
                                    }),
                                    offen: z.offen.push(tag),
                                }),
                            },
                            Ok(None) => match attribute_filtern(
                                tag_attribute(e),
                                seq!["content".spec_bytes(), "tag".spec_bytes()],
                                false,
                            ) {
                                Err(()) => Err(FehlerArt::Attribut),
                                Ok(attrs) => Ok(SpaltenZustand {
                                    ausgabe: z.ausgabe + ereignis_bytes(XmlEreignisV {
                                        art: Art::Start,
                                        inhalt: start_inhalt(tag, attrs),
                                    }) + maskiert(w),
                                    offen: z.offen.push(tag),
                                }),
                            },
                        }
                    },
                },
            }
        } else if ist_ende(e, "column".spec_bytes()) {
            if z.offen.len() == 0 {
                Err(FehlerArt::KeineOffeneSpalte)
            } else {
                Ok(SpaltenZustand {
                    ausgabe: z.ausgabe + ereignis_bytes(XmlEreignisV { art: Art::Ende, inhalt: z.offen.last() }),
                    offen: z.offen.drop_last(),
                })
            }
        } else {
            Ok(SpaltenZustand { ausgabe: z.ausgabe + ereignis_bytes(e), offen: z.offen })
        },
    }
}

/// Das Einfüllen über eine Folge von Lesungen, bis zum ersten Fehler.
pub open spec fn spalten_lauf(
    felder: Seq<(Seq<char>, Seq<char>)>,
    s: Seq<Option<XmlEreignisV>>,
) -> Result<SpaltenZustand, FehlerArt>
    decreases s.len(),
{
    if s.len() == 0 {
        Ok(SpaltenZustand { ausgabe: Seq::empty(), offen: Seq::empty() })
    } else {
        match spalten_lauf(felder, s.drop_last()) {
            Ok(z) => spalten_schritt(felder, z, s.last()),
            Err(f) => Err(f),
        }
    }
}

pub open spec fn offen_v(offen: Seq<Vec<u8>>) -> Seq<Seq<u8>> {
    offen.map_values(|v: Vec<u8>| v@)
}

/// Der Wert einer Spalte als Bytes: der eingetragene oder leer.
fn wert_bytes(records: &Datensatz, wert: &[u8]) -> (res: Vec<u8>)
    requires
        valid_utf8(wert@),
    ensures
        res@ == encode_utf8(wert_oder_leer(records@, decode_utf8(wert@))),
{
    let s = crate::leser::str_aus_utf8(wert).unwrap();
    let mut res: Vec<u8> = Vec::new();
    match records.get(s) {
        Some(w) => {
            bytes_anhaengen(&mut res, w.as_str().as_bytes());
        },
        None => {
            assert(encode_utf8(Seq::<char>::empty()) =~= Seq::<u8>::empty());
        },
    }
    res
}

/// Ein Schritt des Einfüllens, ausgeführt.
fn spalten_schritt_aus(
    records: &Datensatz,
    ausgabe: &mut Vec<u8>,
    offen: &mut Vec<Vec<u8>>,
    l: &Result<XmlEreignis, XmlFehler>,
) -> (res: Result<(), VehaFehler>)
    requires
        match l { Ok(e) => valid_utf8(e.inhalt@), Err(_) => true },
        forall|k: int| 0 <= k < old(offen)@.len() ==> valid_utf8(#[trigger] old(offen)@[k]@),
    ensures
        forall|k: int| 0 <= k < final(offen)@.len() ==> valid_utf8(#[trigger] final(offen)@[k]@),
        match res {
            Ok(()) => spalten_schritt(records@, SpaltenZustand { ausgabe: old(ausgabe)@, offen: offen_v(old(offen)@) },
                crate::leser::lesung_v(*l)) == Ok::<SpaltenZustand, FehlerArt>(
                    SpaltenZustand { ausgabe: final(ausgabe)@, offen: offen_v(final(offen)@) }),
            Err(f) => spalten_schritt(records@, SpaltenZustand { ausgabe: old(ausgabe)@, offen: offen_v(old(offen)@) },
                crate::leser::lesung_v(*l)) == Err::<SpaltenZustand, FehlerArt>(f.art())
                && (f matches VehaFehler::Xml(m) ==> *l matches Err(g) && m@ == g.meldung@),
        },
{
    let e = match l {
        Err(f) => {
            return Err(VehaFehler::Xml(f.meldung.clone()));
        },
        Ok(e) => e,
    };
    if ist_start_von(e, "column") {
        let wert = match attributtext_von(e, "content")? {
            None => {
                return Ok(());
            },
            Some(w) => w,
        };
        let tag = match attributtext_von(e, "tag")? {
            None => {
                return Ok(());
            },
            Some(t) => t,
        };
        let w = wert_bytes(records, wert.as_slice());
        match attributtext_von(e, "attribute")? {
            Some(attribut) => {
                let namen = vec!["content", "tag", "attribute"];
                assert(namen@.map_values(|n: &str| n.spec_bytes())
                    =~= seq!["content".spec_bytes(), "tag".spec_bytes(), "attribute".spec_bytes()]);
                let mut inhalt = match start_mit_attributen(tag.as_slice(), e, &namen, false) {
                    Ok(i) => i,
                    Err(_) => {
                        return Err(VehaFehler::Attribut);
                    },
                };
                let ghost attrs = attribute_filtern(tag_attribute(e@),
                    seq!["content".spec_bytes(), "tag".spec_bytes(), "attribute".spec_bytes()], false).unwrap();
                let ghost vorher = inhalt@;
                crate::tagbau::attribut_anhaengen(&mut inhalt, attribut.as_slice(), w.as_slice());
                proof {
                    encode_utf8_valid_utf8(wert_oder_leer(records@, decode_utf8(wert@)));
                    crate::tagbau::lemma_attribut_gueltig((attribut@, w@));
                    valid_utf8_concat(vorher, attribut_bytes((attribut@, w@)));
                }
                assert(attrs.push((attribut@, w@)).drop_last() =~= attrs);
                assert(inhalt@ =~= start_inhalt(tag@, attrs.push((attribut@, w@))));
                let s = XmlEreignis { art: Art::Start, inhalt };
                ereignis_schreiben(ausgabe, &s);
                let ghost alt = offen@;
                offen.push(tag);
                assert(offen_v(offen@) =~= offen_v(alt).push(tag@));
            },
            None => {
                let namen = vec!["content", "tag"];
                assert(namen@.map_values(|n: &str| n.spec_bytes())
                    =~= seq!["content".spec_bytes(), "tag".spec_bytes()]);
                let inhalt = match start_mit_attributen(tag.as_slice(), e, &namen, false) {
                    Ok(i) => i,
                    Err(_) => {
                        return Err(VehaFehler::Attribut);
                    },
                };
                let s = XmlEreignis { art: Art::Start, inhalt };
                ereignis_schreiben(ausgabe, &s);
                let w_str = crate::leser::str_aus_utf8(w.as_slice());
                proof {
                    encode_utf8_valid_utf8(wert_oder_leer(records@, decode_utf8(wert@)));
                }
                let w_str = w_str.unwrap();
                proof {
                    decode_utf8_encode_utf8(w@);
                }
                let m = maskieren(w_str);
                bytes_anhaengen(ausgabe, m.as_slice());
                let ghost alt = offen@;
                offen.push(tag);
                assert(offen_v(offen@) =~= offen_v(alt).push(tag@));
            },
        }
        Ok(())
    } else if ist_ende_von(e, "column") {
        let ghost alt = offen@;
        match offen.pop() {
            None => Err(VehaFehler::KeineOffeneSpalte),
            Some(tag) => {
                assert(offen_v(offen@) =~= offen_v(alt).drop_last());
                let s = XmlEreignis { art: Art::Ende, inhalt: tag };
                ereignis_schreiben(ausgabe, &s);
                Ok(())
            },
        }
    } else {
        ereignis_schreiben(ausgabe, e);
        Ok(())
    }
}

/// Ersetzt in `eingabe` jedes `<column content=".." tag="..">` durch einen
/// Tag `tag` mit den übrigen Attributen und dem Wert der Spalte `content`
/// als Text, oder, mit `attribute="a"`, als Attribut `a`; das passende
/// `</column>` schließt den Tag. Alle anderen Ereignisse bleiben.
pub fn werte_ersetzen(eingabe: String, records: Datensatz) -> (res: Result<Vec<u8>, VehaFehler>)
    ensures
        match res {
            Ok(a) => spalten_lauf(records@, xml_lesungen(eingabe@, false)) matches Ok(z) && a@ == z.ausgabe,
            Err(f) => spalten_lauf(records@, xml_lesungen(eingabe@, false)) == Err::<SpaltenZustand, FehlerArt>(f.art())
                && (f matches VehaFehler::Xml(m) ==> m@ == erste_meldung(xml_lesefolge(eingabe@, false))),
        },
{
    werte_einfuellen(eingabe.as_str(), &records)
}

/// [`werte_ersetzen`] für einen geliehenen Text und Datensatz.
pub fn werte_einfuellen(eingabe: &str, records: &Datensatz) -> (res: Result<Vec<u8>, VehaFehler>)
    ensures
        match res {
            Ok(a) => spalten_lauf(records@, xml_lesungen(eingabe@, false)) matches Ok(z) && a@ == z.ausgabe,
            Err(f) => spalten_lauf(records@, xml_lesungen(eingabe@, false)) == Err::<SpaltenZustand, FehlerArt>(f.art())
                && (f matches VehaFehler::Xml(m) ==> m@ == erste_meldung(xml_lesefolge(eingabe@, false))),
        },
{
    let ls = lesungen(eingabe, false);
    let ghost s = lesungen_v(ls@);
    let mut ausgabe: Vec<u8> = Vec::new();
    let mut offen: Vec<Vec<u8>> = Vec::new();
    let mut i: usize = 0;
    assert(s.take(0) =~= Seq::<Option<XmlEreignisV>>::empty());
    assert(offen_v(offen@) =~= Seq::<Seq<u8>>::empty());
    while i < ls.len()
        invariant
            s == lesungen_v(ls@),
            s == xml_lesungen(eingabe@, false),
            lesungen_wohlgeformt(s),
            forall|k: int| 0 <= k < offen@.len() ==> valid_utf8(#[trigger] offen@[k]@),
            i <= ls@.len(),
            spalten_lauf(records@, s.take(i as int)) == Ok::<SpaltenZustand, FehlerArt>(
                SpaltenZustand { ausgabe: ausgabe@, offen: offen_v(offen@) }),
            lesungen_voll(ls@) == xml_lesefolge(eingabe@, false),
            forall|k: int| 0 <= k < i ==> ls@[k] is Ok,
        decreases ls@.len() - i,
    {
        assert(s.take(i + 1).drop_last() =~= s.take(i as int));
        assert(s.take(i + 1).last() == crate::leser::lesung_v(ls@[i as int]));
        proof { lemma_lesung_gueltig(s, ls@, i as int); }
        match spalten_schritt_aus(records, &mut ausgabe, &mut offen, &ls[i]) {
            Ok(()) => {
                assert(ls@[i as int] is Ok);
            },
            Err(f) => {
                proof {
                    lemma_spalten_fehler_bleibt(records@, s, i as int + 1);
                    if f is Xml {
                        lemma_erste_meldung(ls@, i as int);
                    }
                }
                return Err(f);
            },
        }
        i = i + 1;
    }
    assert(s.take(i as int) =~= s);
    Ok(ausgabe)
}

/// Ein Fehler im Anfang ist der Fehler des ganzen Laufs.
pub proof fn lemma_spalten_fehler_bleibt(felder: Seq<(Seq<char>, Seq<char>)>, s: Seq<Option<XmlEreignisV>>, n: int)
    requires
        0 <= n <= s.len(),
        spalten_lauf(felder, s.take(n)) is Err,
    ensures
        spalten_lauf(felder, s) == spalten_lauf(felder, s.take(n)),
    decreases s.len() - n,
{
    if n < s.len() {
        assert(s.take(n + 1).drop_last() =~= s.take(n));
        lemma_spalten_fehler_bleibt(felder, s, n + 1);
    } else {
        assert(s.take(n) =~= s);
    }
}

} // verus!

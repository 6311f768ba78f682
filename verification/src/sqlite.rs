//! Der SQLite-Motor: die Abfrage aus einem `<sqlite backend src=".." table="..">`
//! Tag lesen und Datenbankzeilen zu Datensätzen machen.

use vstd::prelude::*;
use vstd::utf8::*;
use vstd::string::{StringExecFns, StringSliceAdditionalSpecFns};
use crate::ereignis::{Art, XmlEreignisV};
use crate::fehler::{FehlerArt, VehaFehler};
use crate::leser::{entschluesseln, erste_meldung, lemma_erste_meldung, lesung_v, lesungen, lesungen_v, lesungen_voll, str_aus_utf8, xml_entschluesselt, xml_lesefolge, xml_lesungen};
use crate::tabular::{attributtext, attributtext_von};
use crate::pfad::{verbinden, verbunden};
use crate::utils::{attributwert, attribut_vorhanden, ist_ende, ist_ende_von, ist_start, ist_start_von};

verus! {

/// Die Abfrage eines `<sqlite>`-Tags: Datenbankdatei, Tabelle und der Text
/// der SQL-Abfrage.
#[derive(Debug)]
pub struct SqliteAnfrage {
    pub src: String,
    pub tabelle: String,
    pub abfrage: String,
}

/// Zustand bei der Suche nach der SQLite-Anfrage: ob der Tag begann und endete, ob er ein Backend nennt, und was bisher gelesen ist.
pub struct SqliteZustand {
    pub anfang: bool,
    pub ende: bool,
    pub backend: bool,
    pub src: Seq<char>,
    pub tabelle: Seq<char>,
    pub abfrage: Seq<char>,
}

/// Wie die Suche nach der SQLite-Anfrage ein Ereignis (oder einen Lesefehler) verarbeitet.
pub open spec fn sqlite_schritt(z: SqliteZustand, l: Option<XmlEreignisV>) -> Result<SqliteZustand, FehlerArt> {
    match l {
        None => Err(FehlerArt::Xml),
        Some(e) => if ist_start(e, "sqlite".spec_bytes()) {
            match attributwert(e, "backend".spec_bytes()) {
                Err(()) => Err(FehlerArt::Attribut),
                Ok(None) => Ok(SqliteZustand { anfang: true, ..z }),
                Ok(Some(_)) => match attributtext(e, "src".spec_bytes()) {
                    Err(()) => Err(FehlerArt::Attribut),
                    Ok(None) => Ok(SqliteZustand { anfang: true, backend: true, ..z }),
                    Ok(Some(src)) => match attributtext(e, "table".spec_bytes()) {
                        Err(()) => Err(FehlerArt::Attribut),
                        Ok(None) => Ok(SqliteZustand { anfang: true, backend: true, src: decode_utf8(src), ..z }),
                        Ok(Some(t)) => Ok(SqliteZustand {
                            anfang: true,
                            backend: true,
                            src: decode_utf8(src),
                            tabelle: decode_utf8(t),
                            ..z
                        }),
                    },
                },
            }
        } else if e.art == Art::Text && z.anfang && !z.ende {
            match xml_entschluesselt(e.inhalt) {
                None => Err(FehlerArt::Xml),
                Some(t) => Ok(SqliteZustand { abfrage: z.abfrage + t, ..z }),
            }
        } else if ist_ende(e, "sqlite".spec_bytes()) {
            Ok(SqliteZustand { ende: true, ..z })
        } else {
            Ok(z)
        },
    }
}

/// Die Suche über alle Lesungen, Ereignis für Ereignis; der erste Fehler bricht ab.
pub open spec fn sqlite_lauf(s: Seq<Option<XmlEreignisV>>) -> Result<SqliteZustand, FehlerArt>
    decreases s.len(),
{
    if s.len() == 0 {
        Ok(SqliteZustand {
            anfang: false,
            ende: false,
            backend: false,
            src: Seq::empty(),
            tabelle: Seq::empty(),
            abfrage: Seq::empty(),
        })
    } else {
        match sqlite_lauf(s.drop_last()) {
            Ok(z) => sqlite_schritt(z, s.last()),
            Err(f) => Err(f),
        }
    }
}

/// Ist die Suche nach `n` Lesungen gescheitert, bleibt es bei diesem Fehler.
pub proof fn lemma_sqlite_fehler_bleibt(s: Seq<Option<XmlEreignisV>>, n: int)
    requires
        0 <= n <= s.len(),
        sqlite_lauf(s.take(n)) is Err,
    ensures
        sqlite_lauf(s) == sqlite_lauf(s.take(n)),
    decreases s.len() - n,
{
    if n < s.len() {
        assert(s.take(n + 1).drop_last() =~= s.take(n));
        lemma_sqlite_fehler_bleibt(s, n + 1);
    } else {
        assert(s.take(n) =~= s);
    }
}

/// Was die Suche nach der Abfrage für ein Dokument ergibt.
pub open spec fn sqlite_anfrage_spec(eingabe: Seq<u8>, dir: Seq<char>) -> Result<(Seq<char>, Seq<char>, Seq<char>), FehlerArt> {
    if !valid_utf8(eingabe) {
        Err(FehlerArt::KeinUtf8)
    } else {
        match sqlite_lauf(xml_lesungen(decode_utf8(eingabe), false)) {
            Err(f) => Err(f),
            Ok(z) => if z.backend && z.anfang && z.ende {
                Ok((verbunden(dir, z.src), z.tabelle, z.abfrage))
            } else {
                Err(FehlerArt::KeinSqliteTag)
            },
        }
    }
}

fn text_von(b: Vec<u8>) -> (res: String)
    requires
        valid_utf8(b@),
    ensures
        res@ == decode_utf8(b@),
{
    str_aus_utf8(b.as_slice()).unwrap().to_string()
}

/// An der Stelle `k` steht ein Text, der sich nicht entschlüsseln lässt.
pub open spec fn text_nicht_entschluesselt(s: Seq<Option<XmlEreignisV>>, k: int) -> bool {
    s[k] matches Some(e) && e.art == Art::Text && xml_entschluesselt(e.inhalt) is None
}

/// Sucht im Dokument den `<sqlite>`-Tag mit `backend`-Attribut und liest
/// seine Datenbank (`src`, mit dem Vorlagenverzeichnis verbunden), Tabelle (`table`) und den entmaskierten Text
/// darin als Abfrage. Ein Fehler, wenn die Eingabe kein UTF-8 ist, das
/// Dokument oder ein Attribut sich nicht lesen lässt, oder kein solcher Tag
/// geöffnet und geschlossen wurde.
pub fn sqlite_anfrage_finden(eingabe: &[u8], vorlagen_dir: &str) -> (res: Result<SqliteAnfrage, VehaFehler>)
    ensures
        match res {
            Ok(a) => sqlite_anfrage_spec(eingabe@, vorlagen_dir@) == Ok::<(Seq<char>, Seq<char>, Seq<char>), FehlerArt>(
                (a.src@, a.tabelle@, a.abfrage@)),
            Err(f) => sqlite_anfrage_spec(eingabe@, vorlagen_dir@) == Err::<(Seq<char>, Seq<char>, Seq<char>), FehlerArt>(f.art())
                && (f matches VehaFehler::Xml(m) ==> m@ == erste_meldung(xml_lesefolge(decode_utf8(eingabe@), false))
                    || exists|k: int| 0 <= k < xml_lesungen(decode_utf8(eingabe@), false).len()
                        && #[trigger] text_nicht_entschluesselt(xml_lesungen(decode_utf8(eingabe@), false), k)),
        },
{
    let text = match str_aus_utf8(eingabe) {
        None => {
            return Err(VehaFehler::KeinUtf8);
        },
        Some(t) => t,
    };
    let ls = lesungen(text, false);
    let ghost s = lesungen_v(ls@);
    let mut anfang = false;
    let mut ende = false;
    let mut backend = false;
    let mut src = String::new();
    let mut tabelle = String::new();
    let mut abfrage = String::new();
    let mut i: usize = 0;
    assert(s.take(0) =~= Seq::<Option<XmlEreignisV>>::empty());
    while i < ls.len()
        invariant
            s == lesungen_v(ls@),
            valid_utf8(eingabe@),
            s == xml_lesungen(decode_utf8(eingabe@), false),
            lesungen_voll(ls@) == xml_lesefolge(decode_utf8(eingabe@), false),
            forall|k: int| 0 <= k < i ==> ls@[k] is Ok,
            i <= ls@.len(),
            sqlite_lauf(s.take(i as int)) == Ok::<SqliteZustand, FehlerArt>(SqliteZustand {
                anfang, ende, backend, src: src@, tabelle: tabelle@, abfrage: abfrage@,
            }),
        decreases ls@.len() - i,
    {
        assert(s.take(i + 1).drop_last() =~= s.take(i as int));
        assert(s.take(i + 1).last() == lesung_v(ls@[i as int]));
        match &ls[i] {
            Err(f) => {
                proof {
                    lemma_sqlite_fehler_bleibt(s, i as int + 1);
                    lemma_erste_meldung(ls@, i as int);
                }
                return Err(VehaFehler::Xml(f.meldung.clone()));
            },
            Ok(e) => {
                if ist_start_von(e, "sqlite") {
                    match attribut_vorhanden(e, "backend") {
                        Err(_) => {
                            proof { lemma_sqlite_fehler_bleibt(s, i as int + 1); }
                            return Err(VehaFehler::Attribut);
                        },
                        Ok(false) => {
                            anfang = true;
                        },
                        Ok(true) => {
                            match attributtext_von(e, "src") {
                                Err(f) => {
                                    proof { lemma_sqlite_fehler_bleibt(s, i as int + 1); }
                                    return Err(f);
                                },
                                Ok(None) => {
                                    anfang = true;
                                    backend = true;
                                },
                                Ok(Some(q)) => {
                                    match attributtext_von(e, "table") {
                                        Err(f) => {
                                            proof { lemma_sqlite_fehler_bleibt(s, i as int + 1); }
                                            return Err(f);
                                        },
                                        Ok(None) => {
                                            anfang = true;
                                            backend = true;
                                            src = text_von(q);
                                        },
                                        Ok(Some(t)) => {
                                            anfang = true;
                                            backend = true;
                                            src = text_von(q);
                                            tabelle = text_von(t);
                                        },
                                    }
                                },
                            }
                        },
                    }
                } else if e.art == Art::Text && anfang && !ende {
                    match entschluesseln(e.inhalt.as_slice()) {
                        Err(meldung) => {
                            proof {
                                lemma_sqlite_fehler_bleibt(s, i as int + 1);
                                assert(text_nicht_entschluesselt(s, i as int));
                            }
                            return Err(VehaFehler::Xml(meldung));
                        },
                        Ok(t) => {
                            abfrage.append(t.as_str());
                        },
                    }
                } else if ist_ende_von(e, "sqlite") {
                    ende = true;
                }
            },
        }
        i = i + 1;
    }
    assert(s.take(i as int) =~= s);
    if backend && anfang && ende {
        Ok(SqliteAnfrage { src: verbinden(vorlagen_dir, src.as_str()), tabelle, abfrage })
    } else {
        Err(VehaFehler::KeinSqliteTag)
    }
}

/// Umwandlungen der gelesenen Datensätze gibt es (noch) keine.
pub fn transform() {
}

} // verus!

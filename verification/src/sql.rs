//! Der SQL-Motor: ein `<sql src=".." ref=".." table="..">`-Tag nennt eine
//! SQL-Abfrage und eine SQLite-Datenbank; jedes `<row src=".." tag="..">`
//! darin wird durch eine Zeilenvorlage ersetzt, die für jeden bis dahin
//! gelesenen Datensatz einmal eingefüllt wird.
//!
//! Die Arbeit geht in zwei Schritten: [`sql_anfragen`] sagt, welche Abfragen
//! und Dateien in welcher Reihenfolge gebraucht werden; [`binden`] nimmt die
//! Antworten in derselben Reihenfolge und baut das Dokument.

use vstd::prelude::*;
use crate::leser::{lemma_lesung_gueltig, lesungen_wohlgeformt};
use vstd::utf8::*;
use vstd::string::{StringExecFns, StringSliceAdditionalSpecFns};
use crate::ereignis::{bytes_anhaengen, ereignis_bytes, ereignis_schreiben, Art, XmlEreignis, XmlEreignisV};
use crate::fehler::{FehlerArt, VehaFehler};
use crate::leser::{erste_meldung, lemma_erste_meldung, lesung_v, lesungen, lesungen_v, lesungen_voll, str_aus_utf8, xml_lesefolge, xml_lesungen};
use crate::mdmotor::{alle_bytes, alle_schreiben};
use crate::pfad::{verbinden, verbunden};
use crate::tabular::{attributtext, attributtext_von, spalten_lauf, werte_einfuellen, Datensatz};
use crate::tagbau::{attribute_filtern, start_inhalt, start_mit_attributen};
use crate::utils::{ist_ende, ist_ende_von, ist_start, ist_start_von, tag_attribute};

verus! {

/// Die Datensätze als Folgen von (Spalte, Wert).
pub open spec fn reihen_v(r: Seq<&Datensatz>) -> Seq<Seq<(Seq<char>, Seq<char>)>> {
    r.map_values(|d: &Datensatz| d@)
}

/// Die Zeilenvorlage `text` für jeden Datensatz eingefüllt, hintereinander;
/// oder der erste Fehler.
pub open spec fn reihen_lauf(reihen: Seq<Seq<(Seq<char>, Seq<char>)>>, text: Seq<char>) -> Result<Seq<u8>, FehlerArt>
    decreases reihen.len(),
{
    if reihen.len() == 0 {
        Ok(Seq::empty())
    } else {
        match reihen_lauf(reihen.drop_last(), text) {
            Err(f) => Err(f),
            Ok(a) => match spalten_lauf(reihen.last(), xml_lesungen(text, false)) {
                Err(f) => Err(f),
                Ok(z) => Ok(a + z.ausgabe),
            },
        }
    }
}

/// Ist das Einfüllen nach `n` Datensätzen gescheitert, bleibt es bei diesem Fehler.
pub proof fn lemma_reihen_fehler_bleibt(reihen: Seq<Seq<(Seq<char>, Seq<char>)>>, text: Seq<char>, n: int)
    requires
        0 <= n <= reihen.len(),
        reihen_lauf(reihen.take(n), text) is Err,
    ensures
        reihen_lauf(reihen, text) == reihen_lauf(reihen.take(n), text),
    decreases reihen.len() - n,
{
    if n < reihen.len() {
        assert(reihen.take(n + 1).drop_last() =~= reihen.take(n));
        lemma_reihen_fehler_bleibt(reihen, text, n + 1);
    } else {
        assert(reihen.take(n) =~= reihen);
    }
}

fn reihen_einfuellen(reihen: &Vec<&Datensatz>, xmldatei: &str) -> (res: Result<Vec<u8>, VehaFehler>)
    ensures
        match res {
            Ok(a) => reihen_lauf(reihen_v(reihen@), xmldatei@) == Ok::<Seq<u8>, FehlerArt>(a@),
            Err(f) => reihen_lauf(reihen_v(reihen@), xmldatei@) == Err::<Seq<u8>, FehlerArt>(f.art())
                && (f matches VehaFehler::Xml(m) ==> m@ == erste_meldung(xml_lesefolge(xmldatei@, false))),
        },
{
    let ghost rv = reihen_v(reihen@);
    let mut ausgabe: Vec<u8> = Vec::new();
    let mut i: usize = 0;
    assert(rv.take(0) =~= Seq::<Seq<(Seq<char>, Seq<char>)>>::empty());
    while i < reihen.len()
        invariant
            rv == reihen_v(reihen@),
            i <= reihen@.len(),
            reihen_lauf(rv.take(i as int), xmldatei@) == Ok::<Seq<u8>, FehlerArt>(ausgabe@),
        decreases reihen@.len() - i,
    {
        assert(rv.take(i + 1).drop_last() =~= rv.take(i as int));
        assert(rv.take(i + 1).last() == reihen@[i as int]@);
        match werte_einfuellen(xmldatei, reihen[i]) {
            Ok(teil) => {
                bytes_anhaengen(&mut ausgabe, teil.as_slice());
            },
            Err(f) => {
                proof { lemma_reihen_fehler_bleibt(rv, xmldatei@, i as int + 1); }
                return Err(f);
            },
        }
        i = i + 1;
    }
    assert(rv.take(i as int) =~= rv);
    Ok(ausgabe)
}

/// Füllt die Zeilenvorlage `xmldatei` für jeden Datensatz einmal ein (siehe
/// [`crate::tabular::werte_ersetzen`]) und hängt die Ergebnisse aneinander.
pub fn reihe_einfuellen(reihen: Vec<Datensatz>, xmldatei: String) -> (res: Result<Vec<u8>, VehaFehler>)
    ensures
        match res {
            Ok(a) => reihen_lauf(reihen@.map_values(|d: Datensatz| d@), xmldatei@) == Ok::<Seq<u8>, FehlerArt>(a@),
            Err(f) => reihen_lauf(reihen@.map_values(|d: Datensatz| d@), xmldatei@)
                == Err::<Seq<u8>, FehlerArt>(f.art())
                && (f matches VehaFehler::Xml(m) ==> m@ == erste_meldung(xml_lesefolge(xmldatei@, false))),
        },
{
    let mut refs: Vec<&Datensatz> = Vec::new();
    let mut i: usize = 0;
    while i < reihen.len()
        invariant
            i <= reihen@.len(),
            refs@.len() == i,
            forall|j: int| 0 <= j < i ==> *refs@[j] == reihen@[j],
        decreases reihen@.len() - i,
    {
        refs.push(&reihen[i]);
        i = i + 1;
    }
    assert(reihen_v(refs@) =~= reihen@.map_values(|d: Datensatz| d@));
    reihen_einfuellen(&refs, xmldatei.as_str())
}

/// Was für eine Zeile geschrieben wird: der Tag `tag` mit den Attributen des
/// `<row>` außer `src` und `tag`, darin die eingefüllten Zeilen als
/// XML-Ereignisse, dann das Ende-Tag.
pub open spec fn zeile_bytes(
    reihen: Seq<Seq<(Seq<char>, Seq<char>)>>,
    text: Seq<char>,
    e: XmlEreignisV,
    tag: Seq<u8>,
) -> Result<Seq<u8>, FehlerArt> {
    match reihen_lauf(reihen, text) {
        Err(f) => Err(f),
        Ok(teil) => match attribute_filtern(tag_attribute(e), seq!["src".spec_bytes(), "tag".spec_bytes()], false) {
            Err(()) => Err(FehlerArt::Attribut),
            Ok(attrs) => if !valid_utf8(teil) {
                Err(FehlerArt::KeinUtf8)
            } else {
                match alle_bytes(xml_lesungen(decode_utf8(teil), false)) {
                    Err(f) => Err(f),
                    Ok(b) => Ok(
                        ereignis_bytes(XmlEreignisV { art: Art::Start, inhalt: start_inhalt(tag, attrs) })
                            + b
                            + ereignis_bytes(XmlEreignisV { art: Art::Ende, inhalt: tag }),
                    ),
                }
            },
        },
    }
}

/// `m` ist die Meldung des ersten Lesefehlers der Zeilenvorlage `text` oder,
/// mit den Datensätzen `reihen` eingefüllt, der entstandenen Zeilen.
pub open spec fn zeilen_meldung(reihen: Seq<Seq<(Seq<char>, Seq<char>)>>, text: Seq<char>, m: Seq<char>) -> bool {
    m == erste_meldung(xml_lesefolge(text, false))
        || (reihen_lauf(reihen, text) matches Ok(teil) && m == erste_meldung(xml_lesefolge(decode_utf8(teil), false)))
}

/// `m` ist nach [`zeilen_meldung`] eine Meldung der Zeilenvorlage einer
/// Textantwort.
pub open spec fn antwort_meldung(a: SqlAntwort, reihen: Seq<Seq<(Seq<char>, Seq<char>)>>, m: Seq<char>) -> bool {
    match a {
        SqlAntwort::Text(t) => zeilen_meldung(reihen, t@, m),
        SqlAntwort::Reihen(_) => false,
    }
}

fn zeile_schreiben(e: &XmlEreignis, tag: Vec<u8>, reihen: &Vec<&Datensatz>, text: &str)
    -> (res: Result<Vec<u8>, VehaFehler>)
    requires
        valid_utf8(tag@),
    ensures
        match res {
            Ok(b) => zeile_bytes(reihen_v(reihen@), text@, e@, tag@) == Ok::<Seq<u8>, FehlerArt>(b@),
            Err(f) => zeile_bytes(reihen_v(reihen@), text@, e@, tag@) == Err::<Seq<u8>, FehlerArt>(f.art())
                && (f matches VehaFehler::Xml(m) ==> zeilen_meldung(reihen_v(reihen@), text@, m@)),
        },
{
    let teil = reihen_einfuellen(reihen, text)?;
    let namen = vec!["src", "tag"];
    assert(namen@.map_values(|n: &str| n.spec_bytes()) =~= seq!["src".spec_bytes(), "tag".spec_bytes()]);
    let inhalt = match start_mit_attributen(tag.as_slice(), e, &namen, false) {
        Ok(x) => x,
        Err(_) => return Err(VehaFehler::Attribut),
    };
    let teiltext = match str_aus_utf8(teil.as_slice()) {
        Some(t) => t,
        None => return Err(VehaFehler::KeinUtf8),
    };
    let mut aus: Vec<u8> = Vec::new();
    let st = XmlEreignis { art: Art::Start, inhalt };
    ereignis_schreiben(&mut aus, &st);
    alle_schreiben(teiltext, &mut aus)?;
    let en = XmlEreignis { art: Art::Ende, inhalt: tag };
    ereignis_schreiben(&mut aus, &en);
    Ok(aus)
}

/// Eine Anfrage nach außen, die [`binden`] braucht.
#[derive(Debug)]
pub enum SqlAnfrage {
    /// Die SQL-Datei lesen und ihre Abfrage auf der Datenbank ausführen.
    Abfrage { sql_datei: String, datenbank: String, tabelle: String },
    /// Die Zeilenvorlage lesen.
    Zeile { datei: String },
}

/// Die Antwort auf eine [`SqlAnfrage`].
#[derive(Debug)]
pub enum SqlAntwort {
    /// Die Datensätze einer Abfrage.
    Reihen(Vec<Datensatz>),
    /// Der Text einer Zeilenvorlage.
    Text(String),
}

pub enum SqlAnfrageV {
    Abfrage(Seq<char>, Seq<char>, Seq<char>),
    Zeile(Seq<char>),
}

pub enum SqlAntwortV {
    Reihen(Seq<Seq<(Seq<char>, Seq<char>)>>),
    Text(Seq<char>),
}

pub open spec fn anfrage_v(a: SqlAnfrage) -> SqlAnfrageV {
    match a {
        SqlAnfrage::Abfrage { sql_datei, datenbank, tabelle } => SqlAnfrageV::Abfrage(sql_datei@, datenbank@, tabelle@),
        SqlAnfrage::Zeile { datei } => SqlAnfrageV::Zeile(datei@),
    }
}

pub open spec fn antwort_v(a: SqlAntwort) -> SqlAntwortV {
    match a {
        SqlAntwort::Reihen(r) => SqlAntwortV::Reihen(r@.map_values(|d: Datensatz| d@)),
        SqlAntwort::Text(t) => SqlAntwortV::Text(t@),
    }
}

/// Die Anfragen in ihrer Reihenfolge, ob gerade ein `<sql>` offen ist, und
/// ob das Lesen abgebrochen ist (Lese- oder Attributfehler).
pub open spec fn sql_anfragen_lauf(dir: Seq<char>, s: Seq<Option<XmlEreignisV>>, n: int) -> (Seq<SqlAnfrageV>, bool, bool)
    decreases n,
{
    if n <= 0 {
        (Seq::empty(), false, false)
    } else {
        let (a, offen, abbruch) = sql_anfragen_lauf(dir, s, n - 1);
        if abbruch {
            (a, offen, true)
        } else {
            match s[n - 1] {
                None => (a, offen, true),
                Some(e) => if ist_start(e, "sql".spec_bytes()) {
                    match attributtext(e, "src".spec_bytes()) {
                        Err(()) => (a, true, true),
                        Ok(None) => (a, true, false),
                        Ok(Some(src)) => match attributtext(e, "ref".spec_bytes()) {
                            Err(()) => (a, true, true),
                            Ok(None) => (a, true, false),
                            Ok(Some(db)) => match attributtext(e, "table".spec_bytes()) {
                                Err(()) => (a, true, true),
                                Ok(None) => (a, true, false),
                                Ok(Some(t)) => (a.push(SqlAnfrageV::Abfrage(
                                    verbunden(dir, decode_utf8(src)),
                                    verbunden(dir, decode_utf8(db)),
                                    decode_utf8(t),
                                )), true, false),
                            },
                        },
                    }
                } else if ist_start(e, "row".spec_bytes()) && offen {
                    match attributtext(e, "src".spec_bytes()) {
                        Err(()) => (a, offen, true),
                        Ok(None) => (a, offen, false),
                        Ok(Some(src)) => match attributtext(e, "tag".spec_bytes()) {
                            Err(()) => (a, offen, true),
                            Ok(None) => (a, offen, false),
                            Ok(Some(_)) => (a.push(SqlAnfrageV::Zeile(verbunden(dir, decode_utf8(src)))), offen, false),
                        },
                    }
                } else if ist_ende(e, "row".spec_bytes()) && offen {
                    (a, offen, false)
                } else if ist_ende(e, "sql".spec_bytes()) && offen {
                    (a, false, false)
                } else {
                    (a, offen, false)
                },
            }
        }
    }
}

/// Ist das Sammeln der Anfragen nach `n` Lesungen abgebrochen, bleibt das Ergebnis.
pub proof fn lemma_anfragen_abbruch_bleibt(dir: Seq<char>, s: Seq<Option<XmlEreignisV>>, n: int)
    requires
        0 <= n <= s.len(),
        sql_anfragen_lauf(dir, s, n).2,
    ensures
        sql_anfragen_lauf(dir, s, s.len() as int).0 == sql_anfragen_lauf(dir, s, n).0,
    decreases s.len() - n,
{
    if n < s.len() {
        lemma_anfragen_abbruch_bleibt(dir, s, n + 1);
    }
}

fn text_von(b: Vec<u8>) -> (res: String)
    requires
        valid_utf8(b@),
    ensures
        res@ == decode_utf8(b@),
{
    let t = str_aus_utf8(b.as_slice()).unwrap();
    String::from_str(t)
}

/// Die Anfragen, die [`binden`] der Reihe nach braucht: für jedes
/// `<sql src=".." ref=".." table="..">` die Abfrage (SQL-Datei und Datenbank
/// mit `vorlagen_dir` verbunden), für jedes `<row src=".." tag="..">`
/// innerhalb eines `<sql>` die Zeilenvorlage; bis zum ersten Lese- oder
/// Attributfehler.
pub fn sql_anfragen(eingabe: &str, vorlagen_dir: &str) -> (res: Vec<SqlAnfrage>)
    ensures
        res@.map_values(|a: SqlAnfrage| anfrage_v(a)) == sql_anfragen_lauf(vorlagen_dir@,
            xml_lesungen(eingabe@, false), xml_lesungen(eingabe@, false).len() as int).0,
{
    let ls = lesungen(eingabe, false);
    let ghost s = lesungen_v(ls@);
    let mut res: Vec<SqlAnfrage> = Vec::new();
    let mut offen = false;
    let mut i: usize = 0;
    assert(res@.map_values(|a: SqlAnfrage| anfrage_v(a)) =~= Seq::<SqlAnfrageV>::empty());
    while i < ls.len()
        invariant
            s == lesungen_v(ls@),
            s == xml_lesungen(eingabe@, false),
            lesungen_wohlgeformt(s),
            i <= ls@.len(),
            sql_anfragen_lauf(vorlagen_dir@, s, i as int) == (res@.map_values(|a: SqlAnfrage| anfrage_v(a)), offen, false),
        decreases ls@.len() - i,
    {
        assert(s[i as int] == lesung_v(ls@[i as int]));
        let ghost alt = res@;
        match &ls[i] {
            Err(_) => {
                proof { lemma_anfragen_abbruch_bleibt(vorlagen_dir@, s, i as int + 1); }
                return res;
            },
            Ok(e) => {
                if ist_start_von(e, "sql") {
                    offen = true;
                    let src = match attributtext_von(e, "src") {
                        Err(_) => {
                            proof { lemma_anfragen_abbruch_bleibt(vorlagen_dir@, s, i as int + 1); }
                            return res;
                        },
                        Ok(x) => x,
                    };
                    if let Some(src) = src {
                        let db = match attributtext_von(e, "ref") {
                            Err(_) => {
                                proof { lemma_anfragen_abbruch_bleibt(vorlagen_dir@, s, i as int + 1); }
                                return res;
                            },
                            Ok(x) => x,
                        };
                        if let Some(db) = db {
                            let t = match attributtext_von(e, "table") {
                                Err(_) => {
                                    proof { lemma_anfragen_abbruch_bleibt(vorlagen_dir@, s, i as int + 1); }
                                    return res;
                                },
                                Ok(x) => x,
                            };
                            if let Some(t) = t {
                                let src_text = text_von(src);
                                let db_text = text_von(db);
                                let a = SqlAnfrage::Abfrage {
                                    sql_datei: verbinden(vorlagen_dir, src_text.as_str()),
                                    datenbank: verbinden(vorlagen_dir, db_text.as_str()),
                                    tabelle: text_von(t),
                                };
                                res.push(a);
                                assert(res@.map_values(|a: SqlAnfrage| anfrage_v(a))
                                    =~= alt.map_values(|a: SqlAnfrage| anfrage_v(a)).push(anfrage_v(res@.last())));
                            }
                        }
                    }
                } else if ist_start_von(e, "row") && offen {
                    let src = match attributtext_von(e, "src") {
                        Err(_) => {
                            proof { lemma_anfragen_abbruch_bleibt(vorlagen_dir@, s, i as int + 1); }
                            return res;
                        },
                        Ok(x) => x,
                    };
                    if let Some(src) = src {
                        let tag = match attributtext_von(e, "tag") {
                            Err(_) => {
                                proof { lemma_anfragen_abbruch_bleibt(vorlagen_dir@, s, i as int + 1); }
                                return res;
                            },
                            Ok(x) => x,
                        };
                        if tag.is_some() {
                            let src_text = text_von(src);
                            res.push(SqlAnfrage::Zeile { datei: verbinden(vorlagen_dir, src_text.as_str()) });
                            assert(res@.map_values(|a: SqlAnfrage| anfrage_v(a))
                                =~= alt.map_values(|a: SqlAnfrage| anfrage_v(a)).push(anfrage_v(res@.last())));
                        }
                    }
                } else if ist_ende_von(e, "row") && offen {
                } else if ist_ende_von(e, "sql") && offen {
                    offen = false;
                }
            },
        }
        i = i + 1;
    }
    res
}

/// Der Zustand beim Binden: die Ausgabe, ob ein `<sql>` offen ist, die bis
/// dahin gelesenen Datensätze und wie viele Antworten verbraucht sind.
pub struct SqlZustand {
    pub ausgabe: Seq<u8>,
    pub offen: bool,
    pub reihen: Seq<Seq<(Seq<char>, Seq<char>)>>,
    pub verbraucht: nat,
}

/// Wie das Binden der Antworten ein Ereignis (oder einen Lesefehler) verarbeitet.
pub open spec fn sql_schritt(antworten: Seq<SqlAntwortV>, z: SqlZustand, l: Option<XmlEreignisV>) -> Result<SqlZustand, FehlerArt> {
    match l {
        None => Err(FehlerArt::Xml),
        Some(e) => if ist_start(e, "sql".spec_bytes()) {
            let z1 = SqlZustand { offen: true, ..z };
            match attributtext(e, "src".spec_bytes()) {
                Err(()) => Err(FehlerArt::Attribut),
                Ok(None) => Ok(z1),
                Ok(Some(_)) => match attributtext(e, "ref".spec_bytes()) {
                    Err(()) => Err(FehlerArt::Attribut),
                    Ok(None) => Ok(z1),
                    Ok(Some(_)) => match attributtext(e, "table".spec_bytes()) {
                        Err(()) => Err(FehlerArt::Attribut),
                        Ok(None) => Ok(z1),
                        Ok(Some(_)) => if z.verbraucht >= antworten.len() {
                            Err(FehlerArt::FehlendeAntwort)
                        } else {
                            match antworten[z.verbraucht as int] {
                                SqlAntwortV::Reihen(rs) => Ok(SqlZustand {
                                    reihen: z.reihen + rs,
                                    verbraucht: z.verbraucht + 1,
                                    ..z1
                                }),
                                SqlAntwortV::Text(_) => Err(FehlerArt::FehlendeAntwort),
                            }
                        },
                    },
                },
            }
        } else if ist_start(e, "row".spec_bytes()) && z.offen {
            match attributtext(e, "src".spec_bytes()) {
                Err(()) => Err(FehlerArt::Attribut),
                Ok(None) => Ok(z),
                Ok(Some(_)) => match attributtext(e, "tag".spec_bytes()) {
                    Err(()) => Err(FehlerArt::Attribut),
                    Ok(None) => Ok(z),
                    Ok(Some(tag)) => if z.verbraucht >= antworten.len() {
                        Err(FehlerArt::FehlendeAntwort)
                    } else {
                        match antworten[z.verbraucht as int] {
                            SqlAntwortV::Reihen(_) => Err(FehlerArt::FehlendeAntwort),
                            SqlAntwortV::Text(t) => match zeile_bytes(z.reihen, t, e, tag) {
                                Err(f) => Err(f),
                                Ok(b) => Ok(SqlZustand {
                                    ausgabe: z.ausgabe + b,
                                    verbraucht: z.verbraucht + 1,
                                    ..z
                                }),
                            },
                        }
                    },
                },
            }
        } else if ist_ende(e, "row".spec_bytes()) && z.offen {
            Ok(z)
        } else if ist_ende(e, "sql".spec_bytes()) && z.offen {
            Ok(SqlZustand { offen: false, ..z })
        } else {
            Ok(SqlZustand { ausgabe: z.ausgabe + ereignis_bytes(e), ..z })
        },
    }
}

/// Das Binden über alle Lesungen, Ereignis für Ereignis; der erste Fehler bricht ab.
pub open spec fn sql_lauf(antworten: Seq<SqlAntwortV>, s: Seq<Option<XmlEreignisV>>) -> Result<SqlZustand, FehlerArt>
    decreases s.len(),
{
    if s.len() == 0 {
        Ok(SqlZustand { ausgabe: Seq::empty(), offen: false, reihen: Seq::empty(), verbraucht: 0 })
    } else {
        match sql_lauf(antworten, s.drop_last()) {
            Ok(z) => sql_schritt(antworten, z, s.last()),
            Err(f) => Err(f),
        }
    }
}

/// Ist das Binden nach `n` Lesungen gescheitert, bleibt es bei diesem Fehler.
pub proof fn lemma_sql_fehler_bleibt(antworten: Seq<SqlAntwortV>, s: Seq<Option<XmlEreignisV>>, n: int)
    requires
        0 <= n <= s.len(),
        sql_lauf(antworten, s.take(n)) is Err,
    ensures
        sql_lauf(antworten, s) == sql_lauf(antworten, s.take(n)),
    decreases s.len() - n,
{
    if n < s.len() {
        assert(s.take(n + 1).drop_last() =~= s.take(n));
        lemma_sql_fehler_bleibt(antworten, s, n + 1);
    } else {
        assert(s.take(n) =~= s);
    }
}

/// Bindet die Datenbankinhalte ein. Ein `<sql src=".." ref=".." table="..">`
/// öffnet einen Bereich und nimmt die Datensätze seiner Abfrage (die nächste
/// Antwort) zu den bisherigen; ein `<row src=".." tag="..">` darin wird durch
/// den Tag `tag` mit den übrigen Attributen ersetzt, der die Zeilenvorlage
/// (die nächste Antwort) für jeden bisherigen Datensatz eingefüllt enthält.
/// `<sql>`, `</sql>`, `<row>` und `</row>` selbst entfallen im Bereich; alles
/// andere bleibt. `antworten` sind die Antworten auf [`sql_anfragen`] in
/// derselben Reihenfolge.
pub fn binden(eingabe: String, antworten: Vec<SqlAntwort>) -> (res: Result<Vec<u8>, VehaFehler>)
    ensures
        match res {
            Ok(a) => sql_lauf(antworten@.map_values(|a: SqlAntwort| antwort_v(a)), xml_lesungen(eingabe@, false))
                matches Ok(z) && a@ == z.ausgabe,
            Err(f) => sql_lauf(antworten@.map_values(|a: SqlAntwort| antwort_v(a)), xml_lesungen(eingabe@, false))
                == Err::<SqlZustand, FehlerArt>(f.art())
                && (f matches VehaFehler::Xml(m) ==> m@ == erste_meldung(xml_lesefolge(eingabe@, false))
                    || exists|k: int, r: Seq<Seq<(Seq<char>, Seq<char>)>>| 0 <= k < antworten.len()
                        && #[trigger] antwort_meldung(antworten@[k], r, m@)),
        },
{
    let ls = lesungen(eingabe.as_str(), false);
    let ghost s = lesungen_v(ls@);
    let ghost av = antworten@.map_values(|a: SqlAntwort| antwort_v(a));
    let mut ausgabe: Vec<u8> = Vec::new();
    let mut offen = false;
    let mut reihen: Vec<&Datensatz> = Vec::new();
    let mut verbraucht: usize = 0;
    let mut i: usize = 0;
    assert(s.take(0) =~= Seq::<Option<XmlEreignisV>>::empty());
    assert(reihen_v(reihen@) =~= Seq::<Seq<(Seq<char>, Seq<char>)>>::empty());
    while i < ls.len()
        invariant
            s == lesungen_v(ls@),
            s == xml_lesungen(eingabe@, false),
            lesungen_voll(ls@) == xml_lesefolge(eingabe@, false),
            forall|k: int| 0 <= k < i ==> ls@[k] is Ok,
            lesungen_wohlgeformt(s),
            av == antworten@.map_values(|a: SqlAntwort| antwort_v(a)),
            i <= ls@.len(),
            sql_lauf(av, s.take(i as int)) == Ok::<SqlZustand, FehlerArt>(SqlZustand {
                ausgabe: ausgabe@,
                offen,
                reihen: reihen_v(reihen@),
                verbraucht: verbraucht as nat,
            }),
        decreases ls@.len() - i,
    {
        assert(s.take(i + 1).drop_last() =~= s.take(i as int));
        assert(s.take(i + 1).last() == lesung_v(ls@[i as int]));
        match &ls[i] {
            Err(f) => {
                proof {
                    lemma_sql_fehler_bleibt(av, s, i as int + 1);
                    lemma_erste_meldung(ls@, i as int);
                }
                return Err(VehaFehler::Xml(f.meldung.clone()));
            },
            Ok(e) => {
                if ist_start_von(e, "sql") {
                    offen = true;
                    let mut vollstaendig = false;
                    match attributtext_von(e, "src") {
                        Err(f) => {
                            proof { lemma_sql_fehler_bleibt(av, s, i as int + 1); }
                            return Err(f);
                        },
                        Ok(None) => {},
                        Ok(Some(_)) => match attributtext_von(e, "ref") {
                            Err(f) => {
                                proof { lemma_sql_fehler_bleibt(av, s, i as int + 1); }
                                return Err(f);
                            },
                            Ok(None) => {},
                            Ok(Some(_)) => match attributtext_von(e, "table") {
                                Err(f) => {
                                    proof { lemma_sql_fehler_bleibt(av, s, i as int + 1); }
                                    return Err(f);
                                },
                                Ok(None) => {},
                                Ok(Some(_)) => {
                                    vollstaendig = true;
                                },
                            },
                        },
                    }
                    if vollstaendig {
                        if verbraucht >= antworten.len() {
                            proof { lemma_sql_fehler_bleibt(av, s, i as int + 1); }
                            return Err(VehaFehler::FehlendeAntwort);
                        }
                        match &antworten[verbraucht] {
                            SqlAntwort::Text(_) => {
                                proof { lemma_sql_fehler_bleibt(av, s, i as int + 1); }
                                return Err(VehaFehler::FehlendeAntwort);
                            },
                            SqlAntwort::Reihen(rs) => {
                                let ghost alt = reihen_v(reihen@);
                                let mut j: usize = 0;
                                assert(alt + rs@.map_values(|d: Datensatz| d@).take(0) =~= alt);
                                while j < rs.len()
                                    invariant
                                        j <= rs@.len(),
                                        reihen_v(reihen@) == alt + rs@.map_values(|d: Datensatz| d@).take(j as int),
                                    decreases rs@.len() - j,
                                {
                                    let ghost vor = reihen@;
                                    reihen.push(&rs[j]);
                                    assert(reihen_v(reihen@) =~= reihen_v(vor).push(rs@[j as int]@));
                                    assert(rs@.map_values(|d: Datensatz| d@).take(j + 1)
                                        =~= rs@.map_values(|d: Datensatz| d@).take(j as int).push(rs@[j as int]@));
                                    assert(reihen_v(reihen@) =~= alt + rs@.map_values(|d: Datensatz| d@).take(j + 1));
                                    j = j + 1;
                                }
                                assert(rs@.map_values(|d: Datensatz| d@).take(j as int) =~= rs@.map_values(|d: Datensatz| d@));
                                verbraucht = verbraucht + 1;
                            },
                        }
                    }
                } else if ist_start_von(e, "row") && offen {
                    match attributtext_von(e, "src") {
                        Err(f) => {
                            proof { lemma_sql_fehler_bleibt(av, s, i as int + 1); }
                            return Err(f);
                        },
                        Ok(None) => {},
                        Ok(Some(_)) => match attributtext_von(e, "tag") {
                            Err(f) => {
                                proof { lemma_sql_fehler_bleibt(av, s, i as int + 1); }
                                return Err(f);
                            },
                            Ok(None) => {},
                            Ok(Some(tag)) => {
                                if verbraucht >= antworten.len() {
                                    proof { lemma_sql_fehler_bleibt(av, s, i as int + 1); }
                                    return Err(VehaFehler::FehlendeAntwort);
                                }
                                match &antworten[verbraucht] {
                                    SqlAntwort::Reihen(_) => {
                                        proof { lemma_sql_fehler_bleibt(av, s, i as int + 1); }
                                        return Err(VehaFehler::FehlendeAntwort);
                                    },
                                    SqlAntwort::Text(t) => {
                                        match zeile_schreiben(e, tag, &reihen, t.as_str()) {
                                            Err(f) => {
                                                proof {
                                                    lemma_sql_fehler_bleibt(av, s, i as int + 1);
                                                    assert(antworten@[verbraucht as int] matches SqlAntwort::Text(t2) && t2@ == t@);
                                                    if let VehaFehler::Xml(m) = &f {
                                                        assert(antwort_meldung(antworten@[verbraucht as int], reihen_v(reihen@), m@));
                                                    }
                                                }
                                                return Err(f);
                                            },
                                            Ok(b) => {
                                                bytes_anhaengen(&mut ausgabe, b.as_slice());
                                                verbraucht = verbraucht + 1;
                                            },
                                        }
                                    },
                                }
                            },
                        },
                    }
                } else if ist_ende_von(e, "row") && offen {
                } else if ist_ende_von(e, "sql") && offen {
                    offen = false;
                } else {
                    proof { lemma_lesung_gueltig(s, ls@, i as int); }
                    ereignis_schreiben(&mut ausgabe, e);
                }
            },
        }
        i = i + 1;
    }
    assert(s.take(i as int) =~= s);
    Ok(ausgabe)
}

} // verus!
